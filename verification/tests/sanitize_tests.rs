use upload_core::errors::UploadError;
use upload_core::sanitize::PathSanitizer;

fn b(s: &str) -> Vec<u8> {
    s.as_bytes().to_vec()
}

#[test]
fn resolve_accepts_single_segment() {
    let p = PathSanitizer::resolve(&b("./uploads"), &b("a.txt")).unwrap();
    assert_eq!(p.name().as_slice(), b"a.txt");
    assert_eq!(p.root().as_slice(), b"./uploads");
    assert_eq!(p.joined_path().as_slice(), b"./uploads/a.txt");
}

#[test]
fn resolve_rejects_traversal_with_path_escape() {
    let e = PathSanitizer::resolve(&b("./uploads"), &b("../../etc/passwd")).unwrap_err();
    assert_eq!(e, UploadError::PathEscape);
}

#[test]
fn resolve_rejects_dot_dot_segment() {
    let e = PathSanitizer::resolve(&b("./uploads"), &b("..")).unwrap_err();
    assert_eq!(e, UploadError::PathEscape);
}

#[test]
fn resolve_rejects_backslash_separator() {
    let e = PathSanitizer::resolve(&b("./uploads"), &b("evil\\name.txt")).unwrap_err();
    assert_eq!(e, UploadError::PathEscape);
}

#[test]
fn resolve_rejects_forward_slash_separator() {
    let e = PathSanitizer::resolve(&b("./uploads"), &b("dir/name.txt")).unwrap_err();
    assert_eq!(e, UploadError::PathEscape);
}

#[test]
fn resolve_rejects_empty_name_as_invalid() {
    let e = PathSanitizer::resolve(&b("./uploads"), &b("")).unwrap_err();
    assert_eq!(e, UploadError::InvalidName);
}

#[test]
fn resolve_rejects_dot_name_as_invalid() {
    let e = PathSanitizer::resolve(&b("./uploads"), &b(".")).unwrap_err();
    assert_eq!(e, UploadError::InvalidName);
}

#[test]
fn resolve_accepts_interior_double_dot() {
    // `a..b` is a single segment: the dots are not a `..` path segment.
    let p = PathSanitizer::resolve(&b("./uploads"), &b("a..b")).unwrap();
    assert_eq!(p.joined_path().as_slice(), b"./uploads/a..b");
}

#[test]
fn resolve_accepts_hidden_file_name() {
    let p = PathSanitizer::resolve(&b("./uploads"), &b(".gitignore")).unwrap();
    assert_eq!(p.name().as_slice(), b".gitignore");
}

#[test]
fn check_name_matches_resolve() {
    assert!(PathSanitizer::check_name(&b("a.txt")));
    assert!(!PathSanitizer::check_name(&b("")));
    assert!(!PathSanitizer::check_name(&b(".")));
    assert!(!PathSanitizer::check_name(&b("..")));
    assert!(!PathSanitizer::check_name(&b("a/b")));
    assert!(!PathSanitizer::check_name(&b("a\\b")));
}
