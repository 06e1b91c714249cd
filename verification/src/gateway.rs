//! The upload gateway: one explicit dispatch from a decoded request to a
//! stored file.
//!
//! The gateway inspects the declared content type; a `multipart/form-data`
//! request is decoded into parts and the first part bound to the expected
//! upload field supplies the candidate filename and payload, while any
//! other request takes the raw path, where the `Content-Disposition`
//! header supplies the filename and the request body is the payload. The
//! candidate then runs through the sanitizer, the bounded stream writer
//! and the store; exactly one destination is written per successful
//! request, and every failure leaves the store untouched.

use vstd::prelude::*;

use crate::bytes_util::{kw_content_disposition, kw_content_disposition_vec, kw_name, kw_name_vec};
use crate::disposition::{
    find_param, find_param_from, filename_of_exec, spec_filename_of, spec_parse_cd,
    ContentDisposition, DispositionView,
};
use crate::errors::UploadError;
use crate::multipart::{
    parts_view, spec_boundary_of, spec_decode, spec_is_multipart, MultipartDecoder, MultipartPart,
    PartView,
};
use crate::sanitize::{name_error, valid_name, PathSanitizer};
use crate::store::{renamed, CollisionPolicy, FileStore, StoredFile};
use crate::writer::StreamWriter;

verus! {

/// How many bytes of the payload are handed to the writer at a time.
pub const CHUNK_SIZE: usize = 65536;

/// A decoded inbound request, as the transport layer hands it to the core.
pub struct UploadRequest {
    /// The declared `Content-Type` value, if the request carried one.
    pub content_type: Option<Vec<u8>>,
    /// The `Content-Disposition` header value, if the request carried one.
    pub content_disposition: Option<Vec<u8>>,
    /// The request body.
    pub body: Vec<u8>,
}

impl UploadRequest {
    /// The declared content type, as the spec sees it.
    pub open spec fn ct_view(&self) -> Option<Seq<u8>> {
        match self.content_type {
            Some(v) => Some(v@),
            None => None,
        }
    }

    /// The disposition header, as the spec sees it.
    pub open spec fn cd_view(&self) -> Option<Seq<u8>> {
        match self.content_disposition {
            Some(v) => Some(v@),
            None => None,
        }
    }
}

/// The configuration surface of the core: all externally chosen, never
/// hard-coded.
pub struct UploadConfig {
    /// The upload root directory.
    pub upload_root: Vec<u8>,
    /// The maximum accepted payload size in bytes.
    pub max_size: usize,
    /// What to do when the destination name is taken.
    pub policy: CollisionPolicy,
    /// The multipart field name that carries the file.
    pub field_name: Vec<u8>,
}

/// The parsed `Content-Disposition` of a part's header block, if the part
/// carries a well-formed one.
pub open spec fn part_cd(p: PartView) -> Option<DispositionView> {
    match find_param(p.headers, kw_content_disposition()) {
        Some(h) => spec_parse_cd(h),
        None => None,
    }
}

/// The part carries the expected upload field.
pub open spec fn part_matches(p: PartView, field: Seq<u8>) -> bool {
    match part_cd(p) {
        Some(d) => find_param(d.params, kw_name()) == Some(field),
        None => false,
    }
}

/// The filename a part designates.
pub open spec fn part_filename(p: PartView) -> Option<Seq<u8>> {
    match part_cd(p) {
        Some(d) => d.filename,
        None => None,
    }
}

/// The first part bound to the expected field, in stream order.
pub open spec fn select_part(parts: Seq<PartView>, field: Seq<u8>) -> Option<PartView>
    decreases parts.len(),
{
    if parts.len() == 0 {
        None
    } else if part_matches(parts[0], field) {
        Some(parts[0])
    } else {
        select_part(parts.skip(1), field)
    }
}

/// The raw path: the `Content-Disposition` header names the destination
/// and the whole body is the payload.
pub open spec fn spec_raw_candidate(cd: Option<Seq<u8>>, body: Seq<u8>) -> Result<
    (Seq<u8>, Seq<u8>),
    UploadError,
> {
    match cd {
        None => Err(UploadError::MissingHeader),
        Some(h) => match spec_parse_cd(h) {
            None => Err(UploadError::MalformedHeader),
            Some(d) => match d.filename {
                None => Err(UploadError::MissingFilename),
                Some(f) => Ok((f, body)),
            },
        },
    }
}

/// The multipart path: the body is decoded by the declared boundary and
/// the first part bound to the upload field supplies filename and payload.
pub open spec fn spec_multipart_candidate(ct: Seq<u8>, body: Seq<u8>, field: Seq<u8>) -> Result<
    (Seq<u8>, Seq<u8>),
    UploadError,
> {
    match spec_boundary_of(ct) {
        None => Err(UploadError::MissingBoundary),
        Some(b) => match spec_decode(body, b) {
            None => Err(UploadError::MalformedBody),
            Some(parts) => match select_part(parts, field) {
                None => Err(UploadError::NoFilePart),
                Some(p) => match part_filename(p) {
                    None => Err(UploadError::MissingFilename),
                    Some(f) => Ok((f, p.body)),
                },
            },
        },
    }
}

/// Protocol detection and candidate extraction for a whole request: the
/// single dispatch on the declared content type.
pub open spec fn spec_candidate(req: UploadRequest, field: Seq<u8>) -> Result<
    (Seq<u8>, Seq<u8>),
    UploadError,
> {
    match req.ct_view() {
        Some(c) => if spec_is_multipart(c) {
            spec_multipart_candidate(c, req.body@, field)
        } else {
            spec_raw_candidate(req.cd_view(), req.body@)
        },
        None => spec_raw_candidate(req.cd_view(), req.body@),
    }
}

/// A multipart body with zero parts bound to the upload field — whatever
/// else it carries — fails the upload with `NoFilePart`.
pub proof fn lemma_no_file_part_denied(
    ct: Seq<u8>,
    body: Seq<u8>,
    field: Seq<u8>,
    boundary: Seq<u8>,
    parts: Seq<PartView>,
)
    requires
        spec_boundary_of(ct) == Some(boundary),
        spec_decode(body, boundary) == Some(parts),
        select_part(parts, field) is None,
    ensures
        spec_multipart_candidate(ct, body, field) == Err::<(Seq<u8>, Seq<u8>), _>(
            UploadError::NoFilePart,
        ),
{
}

/// Orchestrates protocol detection, filename resolution, sanitization,
/// bounded streaming and persistence.
pub struct UploadGateway {}

impl UploadGateway {
    /// The request routes to the multipart decoder rather than the raw
    /// `Content-Disposition` path.
    pub fn is_form_multipart(content_type: &Option<Vec<u8>>) -> (r: bool)
        ensures
            r == match *content_type {
                Some(c) => spec_is_multipart(c@),
                None => false,
            },
    {
        match content_type {
            Some(c) => MultipartDecoder::is_multipart(c),
            None => false,
        }
    }

    /// Detects the protocol and extracts the candidate filename and
    /// payload, exactly as [`spec_candidate`] denotes them.
    pub fn resolve_candidate(req: UploadRequest, field_name: &Vec<u8>) -> (r: Result<
        (Vec<u8>, Vec<u8>),
        UploadError,
    >)
        ensures
            match r {
                Ok(p) => spec_candidate(req, field_name@) == Ok::<_, UploadError>((p.0@, p.1@)),
                Err(e) => spec_candidate(req, field_name@) == Err::<(Seq<u8>, Seq<u8>), _>(e),
            },
    {
        let UploadRequest { content_type, content_disposition, body } = req;
        match content_type {
            Some(ct) => {
                if MultipartDecoder::is_multipart(&ct) {
                    match MultipartDecoder::boundary_of(&ct) {
                        None => Err(UploadError::MissingBoundary),
                        Some(b) => match MultipartDecoder::decode(&body, &b) {
                            Err(e) => Err(e),
                            Ok(mut parts) => {
                                proof {
                                    assert(parts_view(parts@).skip(0) =~= parts_view(parts@));
                                }
                                match select_from(&parts, 0, field_name) {
                                    None => Err(UploadError::NoFilePart),
                                    Some(idx) => {
                                        let part = parts.remove(idx);
                                        match part_filename_exec(&part) {
                                            None => Err(UploadError::MissingFilename),
                                            Some(f) => Ok((f, part.body)),
                                        }
                                    },
                                }
                            },
                        },
                    }
                } else {
                    raw_candidate(content_disposition, body)
                }
            },
            None => raw_candidate(content_disposition, body),
        }
    }

    /// Handles one upload end to end. The outcome is exactly what the
    /// pipeline of [`spec_candidate`], the sanitizer, the size bound and
    /// the collision policy prescribes, and a failed request leaves the
    /// store untouched.
    #[verifier::loop_isolation(false)]
    pub fn handle(req: UploadRequest, cfg: &UploadConfig, store: &mut FileStore) -> (r: Result<
        StoredFile,
        UploadError,
    >)
        ensures
            match spec_candidate(req, cfg.field_name@) {
                Err(e) => r == Err::<StoredFile, _>(e) && final(store)@ == old(store)@,
                Ok(nb) => if !valid_name(nb.0) {
                    r == Err::<StoredFile, _>(name_error(nb.0)) && final(store)@ == old(store)@
                } else if nb.1.len() > cfg.max_size {
                    r == Err::<StoredFile, _>(UploadError::SizeExceeded) && final(store)@ == old(
                        store,
                    )@
                } else {
                    &&& match r {
                        Ok(sf) => {
                            &&& sf.path.wf()
                            &&& sf.path.spec_root() == cfg.upload_root@
                            &&& sf.size == nb.1.len()
                            &&& final(store)@ == old(store)@.insert(sf.path.spec_name(), nb.1)
                            &&& (cfg.policy == CollisionPolicy::Overwrite ==> sf.path.spec_name()
                                == nb.0)
                            &&& (cfg.policy == CollisionPolicy::Reject ==> sf.path.spec_name()
                                == nb.0 && !old(store)@.contains_key(nb.0))
                            &&& (cfg.policy == CollisionPolicy::AutoRename && !old(
                                store,
                            )@.contains_key(nb.0) ==> sf.path.spec_name() == nb.0)
                            &&& (cfg.policy == CollisionPolicy::AutoRename && old(
                                store,
                            )@.contains_key(nb.0) ==> !old(store)@.contains_key(
                                sf.path.spec_name(),
                            ) && exists|k: nat| sf.path.spec_name() == renamed(nb.0, k))
                        },
                        Err(e) => {
                            &&& e == UploadError::Conflict
                            &&& final(store)@ == old(store)@
                            &&& old(store)@.contains_key(nb.0)
                            &&& cfg.policy != CollisionPolicy::Overwrite
                        },
                    }
                    &&& (cfg.policy == CollisionPolicy::Overwrite ==> r is Ok)
                    &&& (cfg.policy == CollisionPolicy::Reject ==> (r is Ok <==> !old(
                        store,
                    )@.contains_key(nb.0)))
                },
            },
    {
        let (name, bytes) = match Self::resolve_candidate(req, &cfg.field_name) {
            Ok(p) => p,
            Err(e) => {
                return Err(e);
            },
        };
        let path = match PathSanitizer::resolve(&cfg.upload_root, &name) {
            Ok(p) => p,
            Err(e) => {
                return Err(e);
            },
        };
        let mut writer = StreamWriter::new(cfg.max_size);
        let n = bytes.len();
        let mut i: usize = 0;
        while i < n
            invariant
                n == bytes@.len(),
                i <= n,
                writer.wf(),
                !writer.is_aborted(),
                writer.spec_max() == cfg.max_size as int,
                writer.spec_buf() == bytes@.subrange(0, i as int),
            decreases n - i,
        {
            let j = if n - i > CHUNK_SIZE {
                i + CHUNK_SIZE
            } else {
                n
            };
            let chunk = vstd::slice::slice_subrange(bytes.as_slice(), i, j);
            match writer.push(chunk) {
                Ok(()) => {
                    proof {
                        assert(bytes@.subrange(0, i as int) + bytes@.subrange(i as int, j as int)
                            =~= bytes@.subrange(0, j as int));
                    }
                    i = j;
                },
                Err(e) => {
                    proof {
                        assert(bytes@.len() > cfg.max_size);
                    }
                    return Err(e);
                },
            }
        }
        proof {
            assert(bytes@.subrange(0, n as int) =~= bytes@);
        }
        let staged = writer.into_bytes();
        store.persist(&path, staged, cfg.policy)
    }
}

/// The raw path of [`UploadGateway::resolve_candidate`].
fn raw_candidate(cd: Option<Vec<u8>>, body: Vec<u8>) -> (r: Result<(Vec<u8>, Vec<u8>), UploadError>)
    ensures
        match r {
            Ok(p) => spec_raw_candidate(
                match cd {
                    Some(h) => Some(h@),
                    None => None,
                },
                body@,
            ) == Ok::<_, UploadError>((p.0@, p.1@)),
            Err(e) => spec_raw_candidate(
                match cd {
                    Some(h) => Some(h@),
                    None => None,
                },
                body@,
            ) == Err::<(Seq<u8>, Seq<u8>), _>(e),
        },
{
    match cd {
        None => Err(UploadError::MissingHeader),
        Some(h) => match ContentDisposition::parse(&h) {
            Err(e) => Err(e),
            Ok(d) => match d.content_name {
                None => Err(UploadError::MissingFilename),
                Some(f) => Ok((f, body)),
            },
        },
    }
}

/// Exec mirror of [`part_cd`] composed with [`part_matches`].
fn part_matches_exec(p: &MultipartPart, field: &Vec<u8>) -> (r: bool)
    ensures
        r == part_matches(p.as_view(), field@),
{
    proof {
        assert(crate::disposition::pairs_view(p.headers@).skip(0) =~= crate::disposition::pairs_view(
            p.headers@,
        ));
    }
    let cd_key = kw_content_disposition_vec();
    match find_param_from(&p.headers, 0, &cd_key) {
        None => false,
        Some(h) => match ContentDisposition::parse(&h) {
            Err(_) => false,
            Ok(d) => {
                proof {
                    assert(crate::disposition::pairs_view(d.params@).skip(0)
                        =~= crate::disposition::pairs_view(d.params@));
                }
                let name_key = kw_name_vec();
                match find_param_from(&d.params, 0, &name_key) {
                    Some(v) => crate::bytes_util::vec_eq(&v, field),
                    None => false,
                }
            },
        },
    }
}

/// Exec mirror of [`part_filename`].
fn part_filename_exec(p: &MultipartPart) -> (r: Option<Vec<u8>>)
    ensures
        match r {
            Some(f) => part_filename(p.as_view()) == Some(f@),
            None => part_filename(p.as_view()) is None,
        },
{
    proof {
        assert(crate::disposition::pairs_view(p.headers@).skip(0) =~= crate::disposition::pairs_view(
            p.headers@,
        ));
    }
    let cd_key = kw_content_disposition_vec();
    match find_param_from(&p.headers, 0, &cd_key) {
        None => None,
        Some(h) => match ContentDisposition::parse(&h) {
            Err(_) => None,
            Ok(d) => d.content_name,
        },
    }
}

/// Exec mirror of [`select_part`], from part `t` on; yields the index of
/// the selected part.
fn select_from(parts: &Vec<MultipartPart>, t: usize, field: &Vec<u8>) -> (r: Option<usize>)
    requires
        t <= parts@.len(),
    ensures
        match r {
            Some(idx) => t <= idx < parts@.len() && select_part(
                parts_view(parts@).skip(t as int),
                field@,
            ) == Some(parts_view(parts@)[idx as int]) && parts_view(parts@)[idx as int]
                == parts@[idx as int].as_view(),
            None => select_part(parts_view(parts@).skip(t as int), field@) is None,
        },
    decreases parts@.len() - t,
{
    if t >= parts.len() {
        proof {
            assert(parts_view(parts@).skip(t as int) =~= Seq::<PartView>::empty());
        }
        return None;
    }
    proof {
        assert(parts_view(parts@).skip(t as int)[0] == parts@[t as int].as_view());
    }
    if part_matches_exec(&parts[t], field) {
        Some(t)
    } else {
        let r = select_from(parts, t + 1, field);
        proof {
            assert(parts_view(parts@).skip(t as int).skip(1) =~= parts_view(parts@).skip(
                t as int + 1,
            ));
        }
        r
    }
}

} // verus!
