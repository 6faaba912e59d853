use rust_toy_webserver::path_guard::{exists_within, path_components, resolve, NotFound};

#[test]
fn test_exists_within() {
    let root = "/tmp/site";

    // A file of the root, resolved.
    assert!(exists_within(root, Some("/tmp/site/test.txt")));

    // `../test.txt` under the root resolves next to the root, or not at all.
    assert!(!exists_within(root, Some("/tmp/test.txt")));
    assert!(!exists_within(root, None));
}

#[test]
fn components_are_the_names_between_slashes() {
    assert_eq!(path_components("/"), Vec::<String>::new());
    assert_eq!(path_components(""), Vec::<String>::new());
    assert_eq!(path_components("/srv/www"), vec!["srv".to_string(), "www".to_string()]);
    assert_eq!(path_components("//srv///www/"), vec!["srv".to_string(), "www".to_string()]);
}

#[test]
fn the_root_itself_is_within() {
    assert!(exists_within("/srv/www", Some("/srv/www")));
    assert!(exists_within("/srv/www", Some("/srv/www/")));
    assert!(exists_within("/", Some("/")));
}

#[test]
fn everything_is_within_the_file_system_root() {
    assert!(exists_within("/", Some("/etc/passwd")));
}

#[test]
fn nested_files_are_within() {
    assert!(exists_within("/srv/www", Some("/srv/www/hello.html")));
    assert!(exists_within("/srv/www", Some("/srv/www/a/b/c.txt")));
}

#[test]
fn traversal_resolves_outside_and_is_refused() {
    assert!(!exists_within("/srv/www", Some("/etc/passwd")));
    assert!(!exists_within("/srv/www", Some("/srv")));
    assert!(!exists_within("/srv/www", Some("/")));
    assert!(!exists_within("/srv/www", Some("/srv/other/hello.html")));
}

#[test]
fn a_longer_name_is_not_a_nested_path() {
    assert!(!exists_within("/srv/www", Some("/srv/www-private/key")));
    assert!(!exists_within("/srv/www", Some("/srv/wwwhello.html")));
    assert!(!exists_within("/srv/www", Some("/srv/ww")));
}

#[test]
fn relative_paths_are_refused() {
    assert!(!exists_within("/srv/www", Some("srv/www/hello.html")));
    assert!(!exists_within("srv/www", Some("/srv/www/hello.html")));
    assert!(!exists_within("/srv/www", Some("")));
    assert!(!exists_within("", Some("/srv/www")));
}

#[test]
fn resolve_returns_the_resolved_path() {
    assert_eq!(
        resolve("/srv/www", Some("/srv/www/hello.html".to_string())),
        Ok("/srv/www/hello.html".to_string())
    );
    assert_eq!(resolve("/srv/www", Some("/srv/www".to_string())), Ok("/srv/www".to_string()));
}

#[test]
fn resolve_reports_not_found_for_missing_and_outside() {
    assert_eq!(resolve("/srv/www", None), Err(NotFound));
    assert_eq!(resolve("/srv/www", Some("/etc/passwd".to_string())), Err(NotFound));
    assert_eq!(resolve("/srv/www", Some("/srv/www-private".to_string())), Err(NotFound));
}
