use upload_core::disposition::{ContentDisposition, ContentTypeEnum};
use upload_core::errors::UploadError;

fn b(s: &str) -> Vec<u8> {
    s.as_bytes().to_vec()
}

fn parse(s: &str) -> ContentDisposition {
    ContentDisposition::parse(&b(s)).unwrap()
}

#[test]
fn parses_attachment_with_quoted_filename() {
    let cd = parse("attachment; filename=\"a.txt\"");
    assert_eq!(cd.content_type, ContentTypeEnum::Attachment);
    assert_eq!(cd.content_name.as_deref(), Some(b"a.txt".as_slice()));
}

#[test]
fn parses_bare_inline() {
    let cd = parse("inline");
    assert_eq!(cd.content_type, ContentTypeEnum::Inline);
    assert_eq!(cd.content_name, None);
    assert!(cd.params.is_empty());
}

#[test]
fn parses_form_data_with_field_and_filename() {
    let cd = parse("form-data; name=\"file\"; filename=\"report.pdf\"");
    assert_eq!(cd.content_type, ContentTypeEnum::FormData);
    assert_eq!(cd.content_name.as_deref(), Some(b"report.pdf".as_slice()));
    assert_eq!(cd.params.len(), 2);
    assert_eq!(cd.params[0].0.as_slice(), b"name");
    assert_eq!(cd.params[0].1.as_slice(), b"file");
}

#[test]
fn parses_unquoted_token_value() {
    let cd = parse("attachment; filename=plain.bin");
    assert_eq!(cd.content_name.as_deref(), Some(b"plain.bin".as_slice()));
}

#[test]
fn unescapes_quoted_string_values() {
    let cd = parse("attachment; filename=\"a\\\"b\\\\c\"");
    assert_eq!(cd.content_name.as_deref(), Some(b"a\"b\\c".as_slice()));
}

#[test]
fn disposition_type_is_case_insensitive() {
    assert_eq!(parse("INLINE").content_type, ContentTypeEnum::Inline);
    assert_eq!(parse("Form-Data; name=x").content_type, ContentTypeEnum::FormData);
    let cd = parse("ATTACHMENT; FILENAME=\"a.txt\"");
    assert_eq!(cd.content_name.as_deref(), Some(b"a.txt".as_slice()));
}

#[test]
fn unknown_disposition_type_degrades_to_attachment() {
    let cd = parse("x-weird; filename=ok.txt");
    assert_eq!(cd.content_type, ContentTypeEnum::Attachment);
    assert_eq!(cd.content_name.as_deref(), Some(b"ok.txt".as_slice()));
}

#[test]
fn decodes_rfc5987_extended_filename() {
    // The check-mark symbol, percent-encoded as UTF-8.
    let cd = parse("attachment; filename*=UTF-8''%E2%9C%93.txt");
    let expected = "\u{2713}.txt".as_bytes();
    assert_eq!(cd.content_name.as_deref(), Some(expected));
}

#[test]
fn extended_filename_takes_precedence() {
    let cd = parse("attachment; filename=\"plain.txt\"; filename*=utf-8''better.txt");
    assert_eq!(cd.content_name.as_deref(), Some(b"better.txt".as_slice()));
}

#[test]
fn rejects_empty_disposition_type() {
    let e = ContentDisposition::parse(&b("; filename=x")).unwrap_err();
    assert_eq!(e, UploadError::MalformedHeader);
    let e = ContentDisposition::parse(&b("")).unwrap_err();
    assert_eq!(e, UploadError::MalformedHeader);
}

#[test]
fn rejects_parameter_without_value() {
    let e = ContentDisposition::parse(&b("attachment; filename")).unwrap_err();
    assert_eq!(e, UploadError::MalformedHeader);
}

#[test]
fn rejects_unclosed_quoted_string() {
    let e = ContentDisposition::parse(&b("attachment; filename=\"a.txt")).unwrap_err();
    assert_eq!(e, UploadError::MalformedHeader);
}

#[test]
fn rejects_bad_percent_escape() {
    let e = ContentDisposition::parse(&b("attachment; filename*=UTF-8''%ZZ.txt")).unwrap_err();
    assert_eq!(e, UploadError::MalformedHeader);
}

#[test]
fn rejects_unsupported_charset() {
    let e =
        ContentDisposition::parse(&b("attachment; filename*=ISO-8859-1''a%E9.txt")).unwrap_err();
    assert_eq!(e, UploadError::MalformedHeader);
}

#[test]
fn rejects_extended_value_that_is_not_utf8() {
    let e = ContentDisposition::parse(&b("attachment; filename*=UTF-8''%FF%FE")).unwrap_err();
    assert_eq!(e, UploadError::MalformedHeader);
}

#[test]
fn missing_filename_parameter_yields_none() {
    let cd = parse("attachment; size=33");
    assert_eq!(cd.content_name, None);
    assert_eq!(cd.params[0].0.as_slice(), b"size");
    assert_eq!(cd.params[0].1.as_slice(), b"33");
}

#[test]
fn quoted_value_may_hold_semicolons() {
    let cd = parse("attachment; filename=\"a;b.txt\"; size=1");
    assert_eq!(cd.content_name.as_deref(), Some(b"a;b.txt".as_slice()));
    assert_eq!(cd.params.len(), 2);
}
