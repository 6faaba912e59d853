use rust_toy_webserver::response::{
    build_response, decimal_text, select_content, BodySource, Status, NOT_FOUND_PAGE,
};

#[test]
fn status_lines() {
    assert_eq!(Status::Success.line(), "HTTP/1.1 200 OK");
    assert_eq!(Status::NotFound.line(), "HTTP/1.1 404 NOT FOUND");
}

#[test]
fn decimal_text_of_lengths() {
    assert_eq!(decimal_text(0), "0");
    assert_eq!(decimal_text(7), "7");
    assert_eq!(decimal_text(9), "9");
    assert_eq!(decimal_text(10), "10");
    assert_eq!(decimal_text(101), "101");
    assert_eq!(decimal_text(1234567890), "1234567890");
    assert_eq!(decimal_text(usize::MAX), usize::MAX.to_string());
}

#[test]
fn response_for_a_found_file() {
    assert_eq!(
        build_response(Status::Success, b"Hello"),
        b"HTTP/1.1 200 OK\r\nContent-Length: 5\r\n\r\nHello".to_vec()
    );
}

#[test]
fn response_for_a_missing_file() {
    assert_eq!(
        build_response(Status::NotFound, b"<h1>Oops!</h1>\n"),
        b"HTTP/1.1 404 NOT FOUND\r\nContent-Length: 15\r\n\r\n<h1>Oops!</h1>\n".to_vec()
    );
}

#[test]
fn response_for_an_empty_body() {
    assert_eq!(
        build_response(Status::Success, b""),
        b"HTTP/1.1 200 OK\r\nContent-Length: 0\r\n\r\n".to_vec()
    );
}

#[test]
fn content_length_counts_bytes() {
    let body = "héllo wörld".as_bytes();
    assert_eq!(body.len(), 13);
    let response = build_response(Status::Success, body);
    assert_eq!(response, "HTTP/1.1 200 OK\r\nContent-Length: 13\r\n\r\nhéllo wörld".as_bytes().to_vec());
}

#[test]
fn body_passes_through_byte_for_byte() {
    let body: Vec<u8> = (0..=255u8).collect();
    let response = build_response(Status::Success, &body);
    let head = b"HTTP/1.1 200 OK\r\nContent-Length: 256\r\n\r\n";
    assert_eq!(&response[..head.len()], &head[..]);
    assert_eq!(&response[head.len()..], &body[..]);
}

#[test]
fn found_file_is_served_with_200() {
    assert_eq!(
        select_content("/srv/www", Some("/srv/www/hello.html".to_string())),
        (Status::Success, BodySource::Resolved("/srv/www/hello.html".to_string()))
    );
}

#[test]
fn missing_file_is_served_as_the_not_found_page() {
    assert_eq!(select_content("/srv/www", None), (Status::NotFound, BodySource::NotFoundPage));
    assert_eq!(NOT_FOUND_PAGE, "404.html");
}

#[test]
fn traversal_is_served_as_the_not_found_page() {
    assert_eq!(
        select_content("/srv/www", Some("/etc/passwd".to_string())),
        (Status::NotFound, BodySource::NotFoundPage)
    );
}
