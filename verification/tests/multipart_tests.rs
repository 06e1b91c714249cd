use upload_core::errors::UploadError;
use upload_core::multipart::MultipartDecoder;

fn b(s: &str) -> Vec<u8> {
    s.as_bytes().to_vec()
}

#[test]
fn detects_multipart_content_type() {
    assert!(MultipartDecoder::is_multipart(&b("multipart/form-data; boundary=X")));
    assert!(MultipartDecoder::is_multipart(&b("Multipart/Form-Data; boundary=X")));
    assert!(MultipartDecoder::is_multipart(&b("  multipart/form-data  ")));
    assert!(!MultipartDecoder::is_multipart(&b("application/octet-stream")));
    assert!(!MultipartDecoder::is_multipart(&b("text/plain; charset=utf-8")));
}

#[test]
fn extracts_boundary_parameter() {
    let ct = b("multipart/form-data; boundary=XyZ123");
    assert_eq!(MultipartDecoder::boundary_of(&ct).as_deref(), Some(b"XyZ123".as_slice()));
}

#[test]
fn extracts_quoted_boundary_parameter() {
    let ct = b("multipart/form-data; boundary=\"has space\"");
    assert_eq!(MultipartDecoder::boundary_of(&ct).as_deref(), Some(b"has space".as_slice()));
}

#[test]
fn missing_boundary_parameter_is_none() {
    assert_eq!(MultipartDecoder::boundary_of(&b("multipart/form-data")), None);
    assert_eq!(MultipartDecoder::boundary_of(&b("multipart/form-data; charset=x")), None);
}

#[test]
fn decodes_single_part_body() {
    let body = b("--B\r\nContent-Disposition: form-data; name=\"file\"; filename=\"a.txt\"\r\n\r\nhello\r\n--B--");
    let parts = MultipartDecoder::decode(&body, &b("B")).unwrap();
    assert_eq!(parts.len(), 1);
    assert_eq!(parts[0].body.as_slice(), b"hello");
    assert_eq!(parts[0].headers.len(), 1);
    assert_eq!(parts[0].headers[0].0.as_slice(), b"content-disposition");
    assert_eq!(parts[0].headers[0].1.as_slice(), b"form-data; name=\"file\"; filename=\"a.txt\"");
}

#[test]
fn decodes_two_parts_in_stream_order() {
    let mut body = b("--B\r\nContent-Disposition: form-data; name=\"first\"\r\n\r\none");
    body.extend_from_slice(b"\r\n--B\r\nContent-Disposition: form-data; name=\"second\"\r\nX-Extra: 7\r\n\r\ntwo");
    body.extend_from_slice(b"\r\n--B--trailing epilogue ignored");
    let parts = MultipartDecoder::decode(&body, &b("B")).unwrap();
    assert_eq!(parts.len(), 2);
    assert_eq!(parts[0].body.as_slice(), b"one");
    assert_eq!(parts[1].body.as_slice(), b"two");
    assert_eq!(parts[1].headers.len(), 2);
    assert_eq!(parts[1].headers[1].0.as_slice(), b"x-extra");
    assert_eq!(parts[1].headers[1].1.as_slice(), b"7");
}

#[test]
fn decodes_empty_body_with_terminal_only() {
    let parts = MultipartDecoder::decode(&b("--B--"), &b("B")).unwrap();
    assert_eq!(parts.len(), 0);
}

#[test]
fn missing_terminal_marker_is_malformed() {
    let body = b("--B\r\nContent-Disposition: form-data; name=\"file\"; filename=\"a.txt\"\r\n\r\nhello");
    let e = MultipartDecoder::decode(&body, &b("B")).unwrap_err();
    assert_eq!(e, UploadError::MalformedBody);
}

#[test]
fn body_not_opening_with_delimiter_is_malformed() {
    let e = MultipartDecoder::decode(&b("junk--B--"), &b("B")).unwrap_err();
    assert_eq!(e, UploadError::MalformedBody);
}

#[test]
fn header_line_without_colon_is_malformed() {
    let body = b("--B\r\nnot a header line\r\n\r\nx\r\n--B--");
    let e = MultipartDecoder::decode(&body, &b("B")).unwrap_err();
    assert_eq!(e, UploadError::MalformedBody);
}

#[test]
fn part_payload_preserves_binary_bytes() {
    let mut body = b("--B\r\nX-K: v\r\n\r\n");
    body.extend_from_slice(&[0u8, 255u8, 13u8, 1u8]);
    body.extend_from_slice(b"\r\n--B--");
    let parts = MultipartDecoder::decode(&body, &b("B")).unwrap();
    assert_eq!(parts[0].body.as_slice(), &[0u8, 255u8, 13u8, 1u8]);
}
