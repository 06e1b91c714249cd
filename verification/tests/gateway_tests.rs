use upload_core::errors::UploadError;
use upload_core::gateway::{UploadConfig, UploadGateway, UploadRequest};
use upload_core::sanitize::PathSanitizer;
use upload_core::store::{CollisionPolicy, FileStore};

fn b(s: &str) -> Vec<u8> {
    s.as_bytes().to_vec()
}

fn config() -> UploadConfig {
    UploadConfig {
        upload_root: b("./uploads"),
        max_size: 1024 * 1024,
        policy: CollisionPolicy::Overwrite,
        field_name: b("file"),
    }
}

fn raw_request(disposition: &str, body: &[u8]) -> UploadRequest {
    UploadRequest {
        content_type: Some(b("application/octet-stream")),
        content_disposition: Some(b(disposition)),
        body: body.to_vec(),
    }
}

/// Serves `GET /files/{name}` against the store model: the same sanitizer
/// guards the read path.
fn get_file(store: &FileStore, name: &str) -> Option<Vec<u8>> {
    match PathSanitizer::resolve(&b("./uploads"), &b(name)) {
        Ok(path) => store.read(path.name()),
        Err(_) => None,
    }
}

#[test]
fn raw_upload_then_read_back() {
    let mut store = FileStore::new();
    let req = raw_request("attachment; filename=\"a.txt\"", b"hello");
    let sf = UploadGateway::handle(req, &config(), &mut store).unwrap();
    assert_eq!(sf.path.name().as_slice(), b"a.txt");
    assert_eq!(sf.size, 5);
    assert_eq!(get_file(&store, "a.txt").unwrap().as_slice(), b"hello");
}

#[test]
fn raw_upload_with_traversal_name_is_rejected_before_any_write() {
    let mut store = FileStore::new();
    let req = raw_request("attachment; filename=\"../../etc/passwd\"", b"pwned");
    let e = UploadGateway::handle(req, &config(), &mut store).unwrap_err();
    assert_eq!(e, UploadError::PathEscape);
    assert_eq!(store.read(&b("passwd")), None);
    assert!(get_file(&store, "../../etc/passwd").is_none());
}

#[test]
fn raw_upload_without_header_fails() {
    let mut store = FileStore::new();
    let req = UploadRequest {
        content_type: Some(b("application/octet-stream")),
        content_disposition: None,
        body: b("x"),
    };
    let e = UploadGateway::handle(req, &config(), &mut store).unwrap_err();
    assert_eq!(e, UploadError::MissingHeader);
}

#[test]
fn raw_upload_without_filename_fails() {
    let mut store = FileStore::new();
    let req = raw_request("attachment", b"x");
    let e = UploadGateway::handle(req, &config(), &mut store).unwrap_err();
    assert_eq!(e, UploadError::MissingFilename);
}

#[test]
fn raw_upload_with_malformed_header_fails() {
    let mut store = FileStore::new();
    let req = raw_request("attachment; filename=\"unclosed", b"x");
    let e = UploadGateway::handle(req, &config(), &mut store).unwrap_err();
    assert_eq!(e, UploadError::MalformedHeader);
}

#[test]
fn extended_filename_decodes_to_check_mark_name() {
    let mut store = FileStore::new();
    let req = raw_request("attachment; filename*=UTF-8''%E2%9C%93.txt", b"marked");
    let sf = UploadGateway::handle(req, &config(), &mut store).unwrap();
    let expected = "\u{2713}.txt";
    assert_eq!(sf.path.name().as_slice(), expected.as_bytes());
    assert_eq!(get_file(&store, expected).unwrap().as_slice(), b"marked");
}

fn multipart_request(body: &[u8]) -> UploadRequest {
    UploadRequest {
        content_type: Some(b("multipart/form-data; boundary=B")),
        content_disposition: None,
        body: body.to_vec(),
    }
}

fn one_part_body(payload: &[u8]) -> Vec<u8> {
    let mut body =
        b("--B\r\nContent-Disposition: form-data; name=\"file\"; filename=\"report.pdf\"\r\n\r\n");
    body.extend_from_slice(payload);
    body.extend_from_slice(b"\r\n--B--");
    body
}

#[test]
fn multipart_upload_stores_selected_part() {
    let mut store = FileStore::new();
    let req = multipart_request(&one_part_body(b"pdf bytes"));
    let sf = UploadGateway::handle(req, &config(), &mut store).unwrap();
    assert_eq!(sf.path.name().as_slice(), b"report.pdf");
    assert_eq!(get_file(&store, "report.pdf").unwrap().as_slice(), b"pdf bytes");
}

#[test]
fn oversize_multipart_upload_fails_and_stores_nothing() {
    let mut store = FileStore::new();
    let mut cfg = config();
    cfg.max_size = 5 * 1024 * 1024;
    let payload = vec![7u8; 10 * 1024 * 1024];
    let req = multipart_request(&one_part_body(&payload));
    let e = UploadGateway::handle(req, &cfg, &mut store).unwrap_err();
    assert_eq!(e, UploadError::SizeExceeded);
    assert_eq!(store.read(&b("report.pdf")), None);
}

#[test]
fn multipart_without_boundary_fails() {
    let mut store = FileStore::new();
    let req = UploadRequest {
        content_type: Some(b("multipart/form-data")),
        content_disposition: None,
        body: one_part_body(b"x"),
    };
    let e = UploadGateway::handle(req, &config(), &mut store).unwrap_err();
    assert_eq!(e, UploadError::MissingBoundary);
}

#[test]
fn multipart_without_terminal_marker_fails() {
    let mut store = FileStore::new();
    let body = b("--B\r\nContent-Disposition: form-data; name=\"file\"; filename=\"a\"\r\n\r\nhi");
    let e = UploadGateway::handle(multipart_request(&body), &config(), &mut store).unwrap_err();
    assert_eq!(e, UploadError::MalformedBody);
}

#[test]
fn multipart_without_file_part_fails() {
    let mut store = FileStore::new();
    let body = b("--B\r\nContent-Disposition: form-data; name=\"comment\"\r\n\r\nnope\r\n--B--");
    let e = UploadGateway::handle(multipart_request(&body), &config(), &mut store).unwrap_err();
    assert_eq!(e, UploadError::NoFilePart);
}

#[test]
fn multipart_file_part_without_filename_fails() {
    let mut store = FileStore::new();
    let body = b("--B\r\nContent-Disposition: form-data; name=\"file\"\r\n\r\nx\r\n--B--");
    let e = UploadGateway::handle(multipart_request(&body), &config(), &mut store).unwrap_err();
    assert_eq!(e, UploadError::MissingFilename);
}

#[test]
fn multipart_selects_first_matching_part_and_drains_others() {
    let mut store = FileStore::new();
    let mut body = b("--B\r\nContent-Disposition: form-data; name=\"comment\"\r\n\r\nignored\r\n");
    body.extend_from_slice(b"--B\r\nContent-Disposition: form-data; name=\"file\"; filename=\"pick.me\"\r\n\r\nchosen\r\n");
    body.extend_from_slice(b"--B\r\nContent-Disposition: form-data; name=\"file\"; filename=\"not.me\"\r\n\r\nlater\r\n");
    body.extend_from_slice(b"--B--");
    let sf = UploadGateway::handle(multipart_request(&body), &config(), &mut store).unwrap();
    assert_eq!(sf.path.name().as_slice(), b"pick.me");
    assert_eq!(get_file(&store, "pick.me").unwrap().as_slice(), b"chosen");
    assert_eq!(store.read(&b("not.me")), None);
}

#[test]
fn overwrite_upload_twice_keeps_second_body() {
    let mut store = FileStore::new();
    UploadGateway::handle(raw_request("attachment; filename=a.txt", b"first"), &config(), &mut store)
        .unwrap();
    UploadGateway::handle(
        raw_request("attachment; filename=a.txt", b"second"),
        &config(),
        &mut store,
    )
        .unwrap();
    assert_eq!(get_file(&store, "a.txt").unwrap().as_slice(), b"second");
}

#[test]
fn reject_policy_surfaces_conflict() {
    let mut store = FileStore::new();
    let mut cfg = config();
    cfg.policy = CollisionPolicy::Reject;
    UploadGateway::handle(raw_request("attachment; filename=a.txt", b"first"), &cfg, &mut store)
        .unwrap();
    let e = UploadGateway::handle(
        raw_request("attachment; filename=a.txt", b"second"),
        &cfg,
        &mut store,
    )
        .unwrap_err();
    assert_eq!(e, UploadError::Conflict);
    assert_eq!(get_file(&store, "a.txt").unwrap().as_slice(), b"first");
}

#[test]
fn auto_rename_policy_stores_suffixed_name() {
    let mut store = FileStore::new();
    let mut cfg = config();
    cfg.policy = CollisionPolicy::AutoRename;
    UploadGateway::handle(raw_request("attachment; filename=a.txt", b"first"), &cfg, &mut store)
        .unwrap();
    let sf = UploadGateway::handle(
        raw_request("attachment; filename=a.txt", b"second"),
        &cfg,
        &mut store,
    )
        .unwrap();
    assert_eq!(sf.path.name().as_slice(), b"a.txt-1");
    assert_eq!(get_file(&store, "a.txt").unwrap().as_slice(), b"first");
    assert_eq!(get_file(&store, "a.txt-1").unwrap().as_slice(), b"second");
}

#[test]
fn two_uploads_to_distinct_names_are_independent() {
    let mut store = FileStore::new();
    UploadGateway::handle(raw_request("attachment; filename=one.txt", b"body one"), &config(), &mut store)
        .unwrap();
    UploadGateway::handle(raw_request("attachment; filename=two.txt", b"body two"), &config(), &mut store)
        .unwrap();
    assert_eq!(get_file(&store, "one.txt").unwrap().as_slice(), b"body one");
    assert_eq!(get_file(&store, "two.txt").unwrap().as_slice(), b"body two");
}

#[test]
fn request_without_content_type_takes_raw_path() {
    let mut store = FileStore::new();
    let req = UploadRequest {
        content_type: None,
        content_disposition: Some(b("attachment; filename=\"n.bin\"")),
        body: b("data"),
    };
    let sf = UploadGateway::handle(req, &config(), &mut store).unwrap();
    assert_eq!(sf.path.name().as_slice(), b"n.bin");
}

#[test]
fn protocol_detection_matches_guards() {
    assert!(UploadGateway::is_form_multipart(&Some(b("multipart/form-data; boundary=Q"))));
    assert!(!UploadGateway::is_form_multipart(&Some(b("application/json"))));
    assert!(!UploadGateway::is_form_multipart(&None));
}

#[test]
fn empty_body_uploads_as_empty_file() {
    let mut store = FileStore::new();
    let req = raw_request("attachment; filename=\"empty\"", b"");
    let sf = UploadGateway::handle(req, &config(), &mut store).unwrap();
    assert_eq!(sf.size, 0);
    assert_eq!(get_file(&store, "empty").unwrap().as_slice(), b"");
}

#[test]
fn body_exactly_at_max_size_is_accepted() {
    let mut store = FileStore::new();
    let mut cfg = config();
    cfg.max_size = 8;
    let req = raw_request("attachment; filename=\"edge\"", b"12345678");
    let sf = UploadGateway::handle(req, &cfg, &mut store).unwrap();
    assert_eq!(sf.size, 8);
    let req = raw_request("attachment; filename=\"over\"", b"123456789");
    let e = UploadGateway::handle(req, &cfg, &mut store).unwrap_err();
    assert_eq!(e, UploadError::SizeExceeded);
}
