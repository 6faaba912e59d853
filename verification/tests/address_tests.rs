use rust_toy_webserver::address::{listen_address, DEFAULT_PORT, LOOPBACK};

#[test]
fn default_address_is_loopback_8080() {
    assert_eq!(listen_address(None), "127.0.0.1:8080");
    assert_eq!(LOOPBACK, "127.0.0.1");
    assert_eq!(DEFAULT_PORT, "8080");
}

#[test]
fn chosen_value_is_taken_as_given() {
    assert_eq!(listen_address(Some("0")), "127.0.0.1:0");
    assert_eq!(listen_address(Some("3000")), "127.0.0.1:3000");
    assert_eq!(listen_address(Some("")), "127.0.0.1:");
    assert_eq!(listen_address(Some("http")), "127.0.0.1:http");
}
