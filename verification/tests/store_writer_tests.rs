use upload_core::errors::UploadError;
use upload_core::sanitize::PathSanitizer;
use upload_core::store::{CollisionPolicy, FileStore};
use upload_core::writer::StreamWriter;

fn b(s: &str) -> Vec<u8> {
    s.as_bytes().to_vec()
}

#[test]
fn writer_accumulates_chunks_in_order() {
    let mut w = StreamWriter::new(16);
    w.push(b"hel").unwrap();
    w.push(b"lo").unwrap();
    assert_eq!(w.into_bytes().as_slice(), b"hello");
}

#[test]
fn writer_accepts_body_exactly_at_limit() {
    let mut w = StreamWriter::new(5);
    w.push(b"hello").unwrap();
    assert_eq!(w.into_bytes().as_slice(), b"hello");
}

#[test]
fn writer_aborts_on_chunk_past_limit() {
    let mut w = StreamWriter::new(5);
    w.push(b"hel").unwrap();
    let e = w.push(b"low").unwrap_err();
    assert_eq!(e, UploadError::SizeExceeded);
}

#[test]
fn writer_abort_discards_stream() {
    let mut w = StreamWriter::new(5);
    w.push(b"he").unwrap();
    w.abort();
    // An aborted stream is never finalized; nothing reaches the store.
}

#[test]
fn store_round_trips_persisted_bytes() {
    let mut store = FileStore::new();
    let path = PathSanitizer::resolve(&b("./uploads"), &b("a.txt")).unwrap();
    let sf = store.persist(&path, b("hello"), CollisionPolicy::Overwrite).unwrap();
    assert_eq!(sf.size, 5);
    assert_eq!(sf.path.name().as_slice(), b"a.txt");
    assert_eq!(store.read(&b("a.txt")).as_deref(), Some(b"hello".as_slice()));
}

#[test]
fn store_read_of_absent_name_is_none() {
    let store = FileStore::new();
    assert_eq!(store.read(&b("a.txt")), None);
}

#[test]
fn overwrite_keeps_second_write_only() {
    let mut store = FileStore::new();
    let path = PathSanitizer::resolve(&b("./uploads"), &b("a.txt")).unwrap();
    store.persist(&path, b("first"), CollisionPolicy::Overwrite).unwrap();
    store.persist(&path, b("second"), CollisionPolicy::Overwrite).unwrap();
    assert_eq!(store.read(&b("a.txt")).as_deref(), Some(b"second".as_slice()));
}

#[test]
fn reject_policy_fails_on_taken_name() {
    let mut store = FileStore::new();
    let path = PathSanitizer::resolve(&b("./uploads"), &b("a.txt")).unwrap();
    store.persist(&path, b("first"), CollisionPolicy::Reject).unwrap();
    let e = store.persist(&path, b("second"), CollisionPolicy::Reject).unwrap_err();
    assert_eq!(e, UploadError::Conflict);
    assert_eq!(store.read(&b("a.txt")).as_deref(), Some(b"first".as_slice()));
}

#[test]
fn auto_rename_picks_first_free_suffix() {
    let mut store = FileStore::new();
    let path = PathSanitizer::resolve(&b("./uploads"), &b("a.txt")).unwrap();
    store.persist(&path, b("first"), CollisionPolicy::AutoRename).unwrap();
    let sf = store.persist(&path, b("second"), CollisionPolicy::AutoRename).unwrap();
    assert_eq!(sf.path.name().as_slice(), b"a.txt-1");
    let sf = store.persist(&path, b("third"), CollisionPolicy::AutoRename).unwrap();
    assert_eq!(sf.path.name().as_slice(), b"a.txt-2");
    assert_eq!(store.read(&b("a.txt")).as_deref(), Some(b"first".as_slice()));
    assert_eq!(store.read(&b("a.txt-1")).as_deref(), Some(b"second".as_slice()));
    assert_eq!(store.read(&b("a.txt-2")).as_deref(), Some(b"third".as_slice()));
}

#[test]
fn distinct_names_do_not_interfere() {
    let mut store = FileStore::new();
    let p1 = PathSanitizer::resolve(&b("./uploads"), &b("one.bin")).unwrap();
    let p2 = PathSanitizer::resolve(&b("./uploads"), &b("two.bin")).unwrap();
    store.persist(&p1, b("payload-one"), CollisionPolicy::Overwrite).unwrap();
    store.persist(&p2, b("payload-two"), CollisionPolicy::Overwrite).unwrap();
    assert_eq!(store.read(&b("one.bin")).as_deref(), Some(b"payload-one".as_slice()));
    assert_eq!(store.read(&b("two.bin")).as_deref(), Some(b"payload-two".as_slice()));
}
