//! The `multipart/form-data` body grammar, independent of the transport.
//!
//! A body is a sequence of parts framed by `--boundary` delimiter lines:
//! each part carries a header block (`Name: value` lines closed by an empty
//! line) and a byte payload running to the next delimiter; the final
//! delimiter carries a trailing `--`. A body whose terminal marker is
//! missing — a truncated upload — is denied as `MalformedBody` rather than
//! yielding a partial part.

use vstd::prelude::*;

use crate::bytes_util::{
    append_bytes, find_byte, find_byte_exec, find_sub, find_sub_exec, kw_boundary,
    kw_boundary_vec, kw_multipart_form_data, kw_multipart_form_data_vec, lemma_find_byte,
    lemma_find_sub, lower_seq, matches_at, matches_at_exec, subrange_vec, trimmed,
    trimmed_lower_vec, trimmed_vec, vec_eq, CR, DASH, LF,
};
use crate::disposition::{find_param, pairs_view, spec_parse_params, parse_params, find_param_from};
use crate::errors::UploadError;

verus! {

/// ASCII `:`.
pub const COLON: u8 = 58;

/// The line terminator of the multipart framing.
pub open spec fn crlf() -> Seq<u8> {
    seq![CR, LF]
}

/// The delimiter a boundary declares: `--` + boundary.
pub open spec fn delim(boundary: Seq<u8>) -> Seq<u8> {
    seq![DASH, DASH] + boundary
}

/// The trailing marker of the final delimiter.
pub open spec fn double_dash() -> Seq<u8> {
    seq![DASH, DASH]
}

/// The spec-level denotation of one decoded part.
pub struct PartView {
    pub headers: Seq<(Seq<u8>, Seq<u8>)>,
    pub body: Seq<u8>,
}

/// One decoded part: its header block (names case-folded) and its payload.
#[derive(Debug)]
pub struct MultipartPart {
    /// The part's headers, names case-folded, values trimmed.
    pub headers: Vec<(Vec<u8>, Vec<u8>)>,
    /// The part's payload.
    pub body: Vec<u8>,
}

impl MultipartPart {
    /// This part as the spec sees it.
    pub open spec fn as_view(&self) -> PartView {
        PartView { headers: pairs_view(self.headers@), body: self.body@ }
    }
}

/// A decoded part list as the spec sees it.
pub open spec fn parts_view(s: Seq<MultipartPart>) -> Seq<PartView> {
    s.map_values(|p: MultipartPart| p.as_view())
}

/// A part's header block from `i` on: `Name: value` lines up to an empty
/// line; yields the headers and the index where the payload begins. `None`
/// denies the body.
pub open spec fn spec_parse_part_headers(s: Seq<u8>, i: int) -> Option<
    (Seq<(Seq<u8>, Seq<u8>)>, int),
>
    decreases s.len() - i,
        via spec_parse_part_headers_decreases
{
    if i < 0 {
        None
    } else {
        let le = find_sub(s, i, crlf());
        if le < 0 {
            None
        } else if le == i {
            Some((Seq::empty(), i + 2))
        } else {
            let c = find_byte(s, i, COLON);
            if c >= le {
                None
            } else {
                let hname = lower_seq(trimmed(s, i, c));
                let hval = trimmed(s, c + 1, le);
                if hname.len() == 0 {
                    None
                } else {
                    match spec_parse_part_headers(s, le + 2) {
                        Some(p) => Some((seq![(hname, hval)] + p.0, p.1)),
                        None => None,
                    }
                }
            }
        }
    }
}

#[via_fn]
proof fn spec_parse_part_headers_decreases(s: Seq<u8>, i: int) {
    if 0 <= i {
        lemma_find_sub(s, i, crlf());
    }
}

/// The header block, when defined, ends inside the input, past its start.
pub proof fn lemma_part_headers_bounds(s: Seq<u8>, i: int)
    requires
        0 <= i,
    ensures
        match spec_parse_part_headers(s, i) {
            Some(p) => i < p.1 <= s.len(),
            None => true,
        },
    decreases s.len() - i,
{
    lemma_find_sub(s, i, crlf());
    let le = find_sub(s, i, crlf());
    if le >= 0 && le != i {
        let c = find_byte(s, i, COLON);
        if c < le && lower_seq(trimmed(s, i, c)).len() != 0 {
            lemma_part_headers_bounds(s, le + 2);
        }
    }
}

/// The parts of `s` from `i` on, where `i` lies just past a delimiter:
/// either the terminal `--`, or CRLF, a header block and a payload running
/// to the next delimiter. Anything else — in particular a body whose
/// terminal marker is missing — is denied.
pub open spec fn spec_decode_parts(s: Seq<u8>, d: Seq<u8>, i: int) -> Option<Seq<PartView>>
    decreases s.len() - i,
        via spec_decode_parts_decreases
{
    if i < 0 {
        None
    } else if matches_at(s, i, double_dash()) {
        Some(Seq::empty())
    } else if matches_at(s, i, crlf()) {
        match spec_parse_part_headers(s, i + 2) {
            Some(hp) => {
                let j = find_sub(s, hp.1, crlf() + d);
                if j < 0 {
                    None
                } else {
                    match spec_decode_parts(s, d, j + 2 + d.len()) {
                        Some(rest) => Some(
                            seq![PartView { headers: hp.0, body: s.subrange(hp.1, j) }] + rest,
                        ),
                        None => None,
                    }
                }
            },
            None => None,
        }
    } else {
        None
    }
}

#[via_fn]
proof fn spec_decode_parts_decreases(s: Seq<u8>, d: Seq<u8>, i: int) {
    if 0 <= i && !matches_at(s, i, double_dash()) && matches_at(s, i, crlf()) {
        lemma_part_headers_bounds(s, i + 2);
        match spec_parse_part_headers(s, i + 2) {
            Some(hp) => {
                lemma_find_sub(s, hp.1, crlf() + d);
            },
            None => {},
        }
    }
}

/// A body whose next delimiter never arrives — a truncated upload with no
/// terminal `--boundary--` marker — is denied rather than yielding a
/// partial part: decoding it, and so the upload, fails with
/// `MalformedBody`.
pub proof fn lemma_missing_terminal_denied(s: Seq<u8>, d: Seq<u8>, i: int)
    requires
        0 <= i,
        !matches_at(s, i, double_dash()),
        matches_at(s, i, crlf()),
        spec_parse_part_headers(s, i + 2) is Some,
        forall|k: int| 0 <= k ==> !matches_at(s, k, crlf() + d),
    ensures
        spec_decode_parts(s, d, i) is None,
{
    match spec_parse_part_headers(s, i + 2) {
        Some(hp) => {
            lemma_part_headers_bounds(s, i + 2);
            lemma_find_sub(s, hp.1, crlf() + d);
        },
        None => {},
    }
}

/// The decoded part list of a whole body: the body must open with the
/// delimiter and close with its terminal form.
pub open spec fn spec_decode(s: Seq<u8>, boundary: Seq<u8>) -> Option<Seq<PartView>> {
    let d = delim(boundary);
    if matches_at(s, 0, d) {
        spec_decode_parts(s, d, d.len() as int)
    } else {
        None
    }
}

/// The media type of a `Content-Type` value: everything before its
/// parameters, trimmed and case-folded.
pub open spec fn spec_essence(s: Seq<u8>) -> Seq<u8> {
    lower_seq(trimmed(s, 0, find_byte(s, 0, crate::disposition::SEMI)))
}

/// The content type declares a `multipart/form-data` body.
pub open spec fn spec_is_multipart(s: Seq<u8>) -> bool {
    spec_essence(s) == kw_multipart_form_data()
}

/// The `boundary` parameter of a content type, if its parameters are
/// well-formed and one is declared.
pub open spec fn spec_boundary_of(s: Seq<u8>) -> Option<Seq<u8>> {
    let e = find_byte(s, 0, crate::disposition::SEMI);
    if e >= s.len() {
        None
    } else {
        match spec_parse_params(s, e + 1) {
            Some(ps) => find_param(ps, kw_boundary()),
            None => None,
        }
    }
}

/// Splits a multipart body into its parts by the declared boundary.
pub struct MultipartDecoder {}

impl MultipartDecoder {
    /// Decides [`spec_is_multipart`] for a declared content type.
    pub fn is_multipart(ct: &Vec<u8>) -> (r: bool)
        ensures
            r == spec_is_multipart(ct@),
    {
        let e = find_byte_exec(ct, 0, crate::disposition::SEMI);
        let t = trimmed_lower_vec(ct, 0, e);
        let kw = kw_multipart_form_data_vec();
        vec_eq(&t, &kw)
    }

    /// The declared boundary, exactly as [`spec_boundary_of`] denotes it.
    pub fn boundary_of(ct: &Vec<u8>) -> (r: Option<Vec<u8>>)
        ensures
            match r {
                Some(b) => spec_boundary_of(ct@) == Some(b@),
                None => spec_boundary_of(ct@) is None,
            },
    {
        let n = ct.len();
        let e = find_byte_exec(ct, 0, crate::disposition::SEMI);
        if e >= n {
            return None;
        }
        match parse_params(ct, e + 1) {
            Ok(ps) => {
                proof {
                    assert(pairs_view(ps@).skip(0) =~= pairs_view(ps@));
                }
                let kw = kw_boundary_vec();
                find_param_from(&ps, 0, &kw)
            },
            Err(_) => None,
        }
    }

    /// Decodes a body against a boundary. Returns exactly the parts the
    /// grammar denotes, in stream order, and `MalformedBody` exactly where
    /// the grammar denies the body — in particular whenever the terminal
    /// `--boundary--` marker is missing.
    pub fn decode(body: &Vec<u8>, boundary: &Vec<u8>) -> (r: Result<Vec<MultipartPart>, UploadError>)
        ensures
            match r {
                Ok(parts) => spec_decode(body@, boundary@) == Some(parts_view(parts@)),
                Err(e) => e == UploadError::MalformedBody && spec_decode(body@, boundary@) is None,
            },
    {
        let mut d: Vec<u8> = Vec::new();
        d.push(DASH);
        d.push(DASH);
        append_bytes(&mut d, boundary);
        proof {
            assert(d@ =~= delim(boundary@));
        }
        if matches_at_exec(body, 0, &d) {
            decode_parts(body, &d, d.len())
        } else {
            Err(UploadError::MalformedBody)
        }
    }
}

/// Builds the CRLF pair.
fn crlf_vec() -> (r: Vec<u8>)
    ensures
        r@ == crlf(),
{
    let mut v: Vec<u8> = Vec::new();
    v.push(CR);
    v.push(LF);
    proof {
        assert(v@ =~= crlf());
    }
    v
}

/// Exec mirror of [`spec_parse_part_headers`].
fn parse_part_headers(v: &Vec<u8>, i: usize) -> (r: Result<
    (Vec<(Vec<u8>, Vec<u8>)>, usize),
    UploadError,
>)
    requires
        i <= v@.len(),
    ensures
        match r {
            Ok(p) => spec_parse_part_headers(v@, i as int) == Some((pairs_view(p.0@), p.1 as int))
                && i < p.1 <= v@.len(),
            Err(e) => e == UploadError::MalformedBody && spec_parse_part_headers(
                v@,
                i as int,
            ) is None,
        },
    decreases v@.len() - i,
{
    let n = v.len();
    let cr = crlf_vec();
    match find_sub_exec(v, i, &cr) {
        None => Err(UploadError::MalformedBody),
        Some(le) => {
            proof {
                lemma_find_sub(v@, i as int, cr@);
            }
            if le == i {
                let hs: Vec<(Vec<u8>, Vec<u8>)> = Vec::new();
                proof {
                    assert(pairs_view(hs@) =~= Seq::<(Seq<u8>, Seq<u8>)>::empty());
                }
                Ok((hs, i + 2))
            } else {
                let c = find_byte_exec(v, i, COLON);
                if c >= le {
                    Err(UploadError::MalformedBody)
                } else {
                    let hname = trimmed_lower_vec(v, i, c);
                    let hval = trimmed_vec(v, c + 1, le);
                    if hname.len() == 0 {
                        Err(UploadError::MalformedBody)
                    } else {
                        match parse_part_headers(v, le + 2) {
                            Ok((mut hs, b)) => {
                                let ghost ghs = pairs_view(hs@);
                                let ghost gname = hname@;
                                let ghost gval = hval@;
                                hs.insert(0, (hname, hval));
                                proof {
                                    assert(pairs_view(hs@) =~= seq![(gname, gval)] + ghs);
                                }
                                Ok((hs, b))
                            },
                            Err(e) => Err(e),
                        }
                    }
                }
            }
        },
    }
}

/// Exec mirror of [`spec_decode_parts`].
fn decode_parts(v: &Vec<u8>, d: &Vec<u8>, i: usize) -> (r: Result<Vec<MultipartPart>, UploadError>)
    requires
        i <= v@.len(),
    ensures
        match r {
            Ok(parts) => spec_decode_parts(v@, d@, i as int) == Some(parts_view(parts@)),
            Err(e) => e == UploadError::MalformedBody && spec_decode_parts(
                v@,
                d@,
                i as int,
            ) is None,
        },
    decreases v@.len() - i,
{
    let n = v.len();
    let mut dd: Vec<u8> = Vec::new();
    dd.push(DASH);
    dd.push(DASH);
    proof {
        assert(dd@ =~= double_dash());
    }
    if matches_at_exec(v, i, &dd) {
        let parts: Vec<MultipartPart> = Vec::new();
        proof {
            assert(parts_view(parts@) =~= Seq::<PartView>::empty());
        }
        return Ok(parts);
    }
    let cr = crlf_vec();
    if !matches_at_exec(v, i, &cr) {
        return Err(UploadError::MalformedBody);
    }
    match parse_part_headers(v, i + 2) {
        Ok((headers, bstart)) => {
            let mut pat = crlf_vec();
            append_bytes(&mut pat, d);
            proof {
                assert(pat@ =~= crlf() + d@);
            }
            match find_sub_exec(v, bstart, &pat) {
                Some(j) => {
                    proof {
                        lemma_find_sub(v@, bstart as int, pat@);
                    }
                    assert(j + 2 + d@.len() <= n);
                    let body = subrange_vec(v, bstart, j);
                    let next = j + 2 + d.len();
                    match decode_parts(v, d, next) {
                        Ok(mut rest) => {
                            let ghost grest = parts_view(rest@);
                            let ghost gheaders = pairs_view(headers@);
                            let ghost gbody = body@;
                            rest.insert(0, MultipartPart { headers, body });
                            proof {
                                assert(parts_view(rest@) =~= seq![
                                    PartView { headers: gheaders, body: gbody },
                                ] + grest);
                            }
                            Ok(rest)
                        },
                        Err(e) => Err(e),
                    }
                },
                None => Err(UploadError::MalformedBody),
            }
        },
        Err(e) => Err(e),
    }
}

} // verus!
