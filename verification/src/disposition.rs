//! The `Content-Disposition` grammar:
//! `disposition-type *( ";" parameter )`, with `name=value` parameters,
//! quoted-string unescaping, and RFC 5987 extended parameters
//! (`name*=charset'language'pct-encoded`, UTF-8 only).
//!
//! Parsing is total and exact: the exec parser returns precisely what the
//! spec-level grammar functions denote, and fails with `MalformedHeader`
//! exactly where they deny the input.

use vstd::prelude::*;

use crate::bytes_util::{
    find_byte, find_byte_exec, is_ws, kw_filename, kw_filename_ext, kw_form_data, kw_inline,
    kw_utf8, lower_seq, lower_vec, kw_filename_ext_vec, kw_filename_vec, kw_form_data_vec,
    kw_inline_vec, kw_utf8_vec, range_lower_is, skip_ws_to, skip_ws_exec, subrange_vec, trimmed,
    trimmed_vec, vec_eq, lemma_find_byte, lemma_skip_ws_to,
};
use crate::errors::UploadError;
use crate::sanitize::BACKSLASH;

verus! {

/// ASCII `;`.
pub const SEMI: u8 = 59;
/// ASCII `=`.
pub const EQ: u8 = 61;
/// ASCII `"`.
pub const DQUOTE: u8 = 34;
/// ASCII `%`.
pub const PERCENT: u8 = 37;
/// ASCII `*`.
pub const STAR: u8 = 42;
/// ASCII `'`.
pub const SQUOTE: u8 = 39;

/// The disposition kind of a `Content-Disposition` header. Unknown types
/// degrade to `Attachment`: an unrecognized disposition alone never
/// rejects an upload.
#[derive(Clone, Copy, Debug, PartialEq, Eq, Structural)]
pub enum ContentTypeEnum {
    Inline,
    Attachment,
    FormData,
}

/// The spec-level denotation of a parsed header.
pub struct DispositionView {
    pub kind: ContentTypeEnum,
    pub filename: Option<Seq<u8>>,
    pub params: Seq<(Seq<u8>, Seq<u8>)>,
}

/// The parameter list of an exec parse, as the spec sees it.
pub open spec fn pairs_view(s: Seq<(Vec<u8>, Vec<u8>)>) -> Seq<(Seq<u8>, Seq<u8>)> {
    s.map_values(|p: (Vec<u8>, Vec<u8>)| (p.0@, p.1@))
}

/// Value of a hexadecimal digit, `-1` for anything else.
pub open spec fn hex_val(b: u8) -> int {
    if 48 <= b && b <= 57 {
        b - 48
    } else if 65 <= b && b <= 70 {
        b - 55
    } else if 97 <= b && b <= 102 {
        b - 87
    } else {
        -1
    }
}

/// Percent-decoding of `s` from `i` on: `%hh` becomes one byte, everything
/// else passes through; a truncated or non-hex escape denies the input.
pub open spec fn pct_decode(s: Seq<u8>, i: int) -> Option<Seq<u8>>
    decreases s.len() - i,
{
    if i < 0 {
        None
    } else if i >= s.len() {
        Some(Seq::empty())
    } else if s[i] == PERCENT {
        if i + 3 <= s.len() && hex_val(s[i + 1]) >= 0 && hex_val(s[i + 2]) >= 0 {
            match pct_decode(s, i + 3) {
                Some(rest) => Some(seq![(16 * hex_val(s[i + 1]) + hex_val(s[i + 2])) as u8] + rest),
                None => None,
            }
        } else {
            None
        }
    } else {
        match pct_decode(s, i + 1) {
            Some(rest) => Some(seq![s[i]] + rest),
            None => None,
        }
    }
}

/// A UTF-8 continuation byte.
pub open spec fn utf8_tail(b: u8) -> bool {
    128 <= b && b < 192
}

/// `s` from `i` on is well-formed UTF-8 (shortest forms only, no
/// surrogates, up to `U+10FFFF`).
pub open spec fn valid_utf8_from(s: Seq<u8>, i: int) -> bool
    decreases s.len() - i,
{
    if i >= s.len() {
        true
    } else if i < 0 {
        false
    } else {
        let b = s[i];
        if b < 128 {
            valid_utf8_from(s, i + 1)
        } else if 194 <= b && b <= 223 {
            i + 2 <= s.len() && utf8_tail(s[i + 1]) && valid_utf8_from(s, i + 2)
        } else if b == 224 {
            i + 3 <= s.len() && 160 <= s[i + 1] && s[i + 1] < 192 && utf8_tail(s[i + 2])
                && valid_utf8_from(s, i + 3)
        } else if (225 <= b && b <= 236) || b == 238 || b == 239 {
            i + 3 <= s.len() && utf8_tail(s[i + 1]) && utf8_tail(s[i + 2]) && valid_utf8_from(
                s,
                i + 3,
            )
        } else if b == 237 {
            i + 3 <= s.len() && 128 <= s[i + 1] && s[i + 1] < 160 && utf8_tail(s[i + 2])
                && valid_utf8_from(s, i + 3)
        } else if b == 240 {
            i + 4 <= s.len() && 144 <= s[i + 1] && s[i + 1] < 192 && utf8_tail(s[i + 2])
                && utf8_tail(s[i + 3]) && valid_utf8_from(s, i + 4)
        } else if 241 <= b && b <= 243 {
            i + 4 <= s.len() && utf8_tail(s[i + 1]) && utf8_tail(s[i + 2]) && utf8_tail(s[i + 3])
                && valid_utf8_from(s, i + 4)
        } else if b == 244 {
            i + 4 <= s.len() && 128 <= s[i + 1] && s[i + 1] < 144 && utf8_tail(s[i + 2])
                && utf8_tail(s[i + 3]) && valid_utf8_from(s, i + 4)
        } else {
            false
        }
    }
}

/// Whole-sequence form of [`valid_utf8_from`].
pub open spec fn valid_utf8(s: Seq<u8>) -> bool {
    valid_utf8_from(s, 0)
}

/// Decoding of an RFC 5987 ext-value `charset'language'pct-encoded`:
/// the charset must be UTF-8 (case-insensitively), the language tag is
/// ignored, and the percent-decoded bytes must be well-formed UTF-8.
pub open spec fn decode_ext_value(s: Seq<u8>) -> Option<Seq<u8>> {
    let q1 = find_byte(s, 0, SQUOTE);
    if q1 >= s.len() {
        None
    } else {
        let q2 = find_byte(s, q1 + 1, SQUOTE);
        if q2 >= s.len() {
            None
        } else if lower_seq(s.subrange(0, q1)) != kw_utf8() {
            None
        } else {
            match pct_decode(s, q2 + 1) {
                Some(b) => if valid_utf8(b) {
                    Some(b)
                } else {
                    None
                },
                None => None,
            }
        }
    }
}

/// Body of a quoted-string from `i` (just past the opening quote): yields
/// the unescaped value and the index just past the closing quote; an
/// unclosed string or a trailing lone backslash denies the input.
pub open spec fn scan_quoted(s: Seq<u8>, i: int) -> Option<(Seq<u8>, int)>
    decreases s.len() - i,
{
    if i < 0 || i >= s.len() {
        None
    } else if s[i] == DQUOTE {
        Some((Seq::empty(), i + 1))
    } else if s[i] == BACKSLASH {
        if i + 1 < s.len() {
            match scan_quoted(s, i + 2) {
                Some(p) => Some((seq![s[i + 1]] + p.0, p.1)),
                None => None,
            }
        } else {
            None
        }
    } else {
        match scan_quoted(s, i + 1) {
            Some(p) => Some((seq![s[i]] + p.0, p.1)),
            None => None,
        }
    }
}

pub proof fn lemma_scan_quoted(s: Seq<u8>, i: int)
    requires
        0 <= i,
    ensures
        match scan_quoted(s, i) {
            Some(p) => i < p.1 <= s.len(),
            None => true,
        },
    decreases s.len() - i,
{
    if 0 <= i && i < s.len() && s[i] != DQUOTE {
        if s[i] == BACKSLASH {
            if i + 1 < s.len() {
                lemma_scan_quoted(s, i + 2);
            }
        } else {
            lemma_scan_quoted(s, i + 1);
        }
    }
}

/// A byte a parameter name may hold.
pub open spec fn param_name_byte(b: u8) -> bool {
    !is_ws(b) && b != SEMI && b != DQUOTE && b != EQ
}

/// An acceptable parameter name (before case folding).
pub open spec fn token_ok(s: Seq<u8>) -> bool {
    s.len() > 0 && forall|i: int| 0 <= i < s.len() ==> param_name_byte(#[trigger] s[i])
}

/// The parameter list from `i` on: `name=value` parameters separated by
/// `;`, names case-folded, values unquoted/decoded. `None` denies the
/// whole header.
pub open spec fn spec_parse_params(s: Seq<u8>, i: int) -> Option<Seq<(Seq<u8>, Seq<u8>)>>
    decreases s.len() - i,
        via spec_parse_params_decreases
{
    if i < 0 {
        None
    } else {
        let j = skip_ws_to(s, i, s.len() as int);
        if j >= s.len() {
            Some(Seq::empty())
        } else {
            let eq = find_byte(s, j, EQ);
            if eq >= s.len() {
                None
            } else {
                let raw = trimmed(s, j, eq);
                if !token_ok(raw) {
                    None
                } else {
                    let name = lower_seq(raw);
                    let k = skip_ws_to(s, eq + 1, s.len() as int);
                    if name.last() == STAR {
                        let vend = find_byte(s, k, SEMI);
                        match decode_ext_value(trimmed(s, k, vend)) {
                            Some(value) => if vend >= s.len() {
                                Some(seq![(name, value)])
                            } else {
                                match spec_parse_params(s, vend + 1) {
                                    Some(rest) => Some(seq![(name, value)] + rest),
                                    None => None,
                                }
                            },
                            None => None,
                        }
                    } else if k < s.len() && s[k] == DQUOTE {
                        match scan_quoted(s, k + 1) {
                            Some(p) => {
                                let m = skip_ws_to(s, p.1, s.len() as int);
                                if m >= s.len() {
                                    Some(seq![(name, p.0)])
                                } else if s[m] == SEMI {
                                    match spec_parse_params(s, m + 1) {
                                        Some(rest) => Some(seq![(name, p.0)] + rest),
                                        None => None,
                                    }
                                } else {
                                    None
                                }
                            },
                            None => None,
                        }
                    } else {
                        let vend = find_byte(s, k, SEMI);
                        let value = trimmed(s, k, vend);
                        if vend >= s.len() {
                            Some(seq![(name, value)])
                        } else {
                            match spec_parse_params(s, vend + 1) {
                                Some(rest) => Some(seq![(name, value)] + rest),
                                None => None,
                            }
                        }
                    }
                }
            }
        }
    }
}

#[via_fn]
proof fn spec_parse_params_decreases(s: Seq<u8>, i: int) {
    if 0 <= i && i <= s.len() {
        lemma_skip_ws_to(s, i, s.len() as int);
        let j = skip_ws_to(s, i, s.len() as int);
        if j < s.len() {
            lemma_find_byte(s, j, EQ);
            let eq = find_byte(s, j, EQ);
            if eq < s.len() {
                lemma_skip_ws_to(s, eq + 1, s.len() as int);
                let k = skip_ws_to(s, eq + 1, s.len() as int);
                lemma_find_byte(s, k, SEMI);
                if k < s.len() {
                    lemma_scan_quoted(s, k + 1);
                    match scan_quoted(s, k + 1) {
                        Some(p) => {
                            lemma_skip_ws_to(s, p.1, s.len() as int);
                        },
                        None => {},
                    }
                }
            }
        }
    }
}

/// First value bound to `key` in a parameter list.
pub open spec fn find_param(ps: Seq<(Seq<u8>, Seq<u8>)>, key: Seq<u8>) -> Option<Seq<u8>>
    decreases ps.len(),
{
    if ps.len() == 0 {
        None
    } else if ps[0].0 == key {
        Some(ps[0].1)
    } else {
        find_param(ps.skip(1), key)
    }
}

/// The filename a parameter list designates: the extended `filename*`
/// parameter takes precedence over the plain `filename`.
pub open spec fn spec_filename_of(ps: Seq<(Seq<u8>, Seq<u8>)>) -> Option<Seq<u8>> {
    match find_param(ps, kw_filename_ext()) {
        Some(v) => Some(v),
        None => find_param(ps, kw_filename()),
    }
}

/// A byte the disposition type token may hold.
pub open spec fn type_byte_ok(b: u8) -> bool {
    !is_ws(b) && b != EQ && b != DQUOTE && b != SEMI
}

/// An acceptable disposition type token; an empty one means the type is
/// missing and the header malformed.
pub open spec fn type_token_ok(s: Seq<u8>) -> bool {
    s.len() > 0 && forall|i: int| 0 <= i < s.len() ==> type_byte_ok(#[trigger] s[i])
}

/// The kind a type token denotes; unrecognized tokens degrade to
/// `Attachment`.
pub open spec fn disposition_kind(ty: Seq<u8>) -> ContentTypeEnum {
    if lower_seq(ty) == kw_inline() {
        ContentTypeEnum::Inline
    } else if lower_seq(ty) == kw_form_data() {
        ContentTypeEnum::FormData
    } else {
        ContentTypeEnum::Attachment
    }
}

/// The full grammar: disposition type, then parameters; the denotation of
/// a well-formed header, `None` for a malformed one.
pub open spec fn spec_parse_cd(s: Seq<u8>) -> Option<DispositionView> {
    let e = find_byte(s, 0, SEMI);
    let ty = trimmed(s, 0, e);
    if !type_token_ok(ty) {
        None
    } else {
        let params_opt = if e >= s.len() {
            Some(Seq::<(Seq<u8>, Seq<u8>)>::empty())
        } else {
            spec_parse_params(s, e + 1)
        };
        match params_opt {
            Some(params) => Some(
                DispositionView {
                    kind: disposition_kind(ty),
                    filename: spec_filename_of(params),
                    params,
                },
            ),
            None => None,
        }
    }
}

/// A parsed `Content-Disposition` header.
#[derive(Debug)]
pub struct ContentDisposition {
    /// The disposition kind.
    pub content_type: ContentTypeEnum,
    /// The designated filename, if any; `filename*` beats `filename`.
    pub content_name: Option<Vec<u8>>,
    /// All parameters, names case-folded, values unquoted/decoded.
    pub params: Vec<(Vec<u8>, Vec<u8>)>,
}

impl ContentDisposition {
    /// The filename as the spec sees it.
    pub open spec fn name_view(&self) -> Option<Seq<u8>> {
        match self.content_name {
            Some(v) => Some(v@),
            None => None,
        }
    }

    /// This parse as the spec-level denotation.
    pub open spec fn as_view(&self) -> DispositionView {
        DispositionView {
            kind: self.content_type,
            filename: self.name_view(),
            params: pairs_view(self.params@),
        }
    }

    /// Parses a `Content-Disposition` header value. Returns exactly the
    /// grammar's denotation of the input, and `MalformedHeader` exactly
    /// where the grammar denies it.
    pub fn parse(header: &Vec<u8>) -> (r: Result<ContentDisposition, UploadError>)
        ensures
            match r {
                Ok(cd) => spec_parse_cd(header@) == Some(cd.as_view()),
                Err(e) => e == UploadError::MalformedHeader && spec_parse_cd(header@) is None,
            },
    {
        let n = header.len();
        let e = find_byte_exec(header, 0, SEMI);
        let ty = trimmed_vec(header, 0, e);
        if !type_token_ok_exec(&ty) {
            return Err(UploadError::MalformedHeader);
        }
        let params: Vec<(Vec<u8>, Vec<u8>)> = if e >= n {
            Vec::new()
        } else {
            match parse_params(header, e + 1) {
                Ok(ps) => ps,
                Err(err) => {
                    return Err(err);
                },
            }
        };
        proof {
            if e >= n {
                assert(pairs_view(Seq::<(Vec<u8>, Vec<u8>)>::empty()) =~= Seq::<(
                    Seq<u8>,
                    Seq<u8>,
                )>::empty());
            }
        }
        let low = lower_vec(&ty);
        let kind = if vec_eq(&low, &kw_inline_vec()) {
            ContentTypeEnum::Inline
        } else if vec_eq(&low, &kw_form_data_vec()) {
            ContentTypeEnum::FormData
        } else {
            ContentTypeEnum::Attachment
        };
        let filename = filename_of_exec(&params);
        Ok(ContentDisposition { content_type: kind, content_name: filename, params })
    }
}

/// Exec mirror of [`token_ok`].
fn type_token_ok_exec(v: &Vec<u8>) -> (r: bool)
    ensures
        r == type_token_ok(v@),
{
    if v.len() == 0 {
        return false;
    }
    let mut k: usize = 0;
    while k < v.len()
        invariant
            k <= v@.len(),
            forall|t: int| 0 <= t < k ==> type_byte_ok(#[trigger] v@[t]),
        decreases v@.len() - k,
    {
        let b = v[k];
        if b == crate::bytes_util::SP || b == crate::bytes_util::HT || b == EQ || b == DQUOTE || b
            == SEMI {
            return false;
        }
        k = k + 1;
    }
    true
}

/// Exec mirror of [`token_ok`].
fn token_ok_exec(v: &Vec<u8>) -> (r: bool)
    ensures
        r == token_ok(v@),
{
    if v.len() == 0 {
        return false;
    }
    let mut k: usize = 0;
    while k < v.len()
        invariant
            k <= v@.len(),
            forall|t: int| 0 <= t < k ==> param_name_byte(#[trigger] v@[t]),
        decreases v@.len() - k,
    {
        let b = v[k];
        if b == crate::bytes_util::SP || b == crate::bytes_util::HT || b == SEMI || b == DQUOTE || b
            == EQ {
            return false;
        }
        k = k + 1;
    }
    true
}

/// Exec mirror of [`hex_val`].
fn hex_val_exec(b: u8) -> (r: Option<u8>)
    ensures
        match r {
            Some(h) => hex_val(b) == h as int && h < 16,
            None => hex_val(b) < 0,
        },
{
    if 48 <= b && b <= 57 {
        Some(b - 48)
    } else if 65 <= b && b <= 70 {
        Some(b - 55)
    } else if 97 <= b && b <= 102 {
        Some(b - 87)
    } else {
        None
    }
}

/// Exec mirror of [`pct_decode`].
fn pct_decode_exec(v: &Vec<u8>, i: usize) -> (r: Option<Vec<u8>>)
    requires
        i <= v@.len(),
    ensures
        match (r, pct_decode(v@, i as int)) {
            (Some(b), Some(sb)) => b@ == sb,
            (None, None) => true,
            _ => false,
        },
    decreases v@.len() - i,
{
    let n = v.len();
    if i >= n {
        let r: Vec<u8> = Vec::new();
        proof {
            assert(r@ =~= Seq::<u8>::empty());
        }
        return Some(r);
    }
    if v[i] == PERCENT {
        if n - i >= 3 {
            let h1 = hex_val_exec(v[i + 1]);
            let h2 = hex_val_exec(v[i + 2]);
            match (h1, h2) {
                (Some(a), Some(b)) => {
                    match pct_decode_exec(v, i + 3) {
                        Some(mut rest) => {
                            let ghost grest = rest@;
                            rest.insert(0, 16 * a + b);
                            proof {
                                assert(rest@ =~= seq![(16 * hex_val(v@[i as int + 1]) + hex_val(
                                    v@[i as int + 2],
                                )) as u8] + grest);
                            }
                            Some(rest)
                        },
                        None => None,
                    }
                },
                _ => None,
            }
        } else {
            None
        }
    } else {
        match pct_decode_exec(v, i + 1) {
            Some(mut rest) => {
                let ghost grest = rest@;
                rest.insert(0, v[i]);
                proof {
                    assert(rest@ =~= seq![v@[i as int]] + grest);
                }
                Some(rest)
            },
            None => None,
        }
    }
}

/// Exec mirror of [`valid_utf8_from`].
fn valid_utf8_exec(v: &Vec<u8>, i: usize) -> (r: bool)
    requires
        i <= v@.len(),
    ensures
        r == valid_utf8_from(v@, i as int),
    decreases v@.len() - i,
{
    let n = v.len();
    if i >= n {
        return true;
    }
    let b = v[i];
    if b < 128 {
        valid_utf8_exec(v, i + 1)
    } else if 194 <= b && b <= 223 {
        n - i >= 2 && 128 <= v[i + 1] && v[i + 1] < 192 && valid_utf8_exec(v, i + 2)
    } else if b == 224 {
        n - i >= 3 && 160 <= v[i + 1] && v[i + 1] < 192 && 128 <= v[i + 2] && v[i + 2] < 192
            && valid_utf8_exec(v, i + 3)
    } else if (225 <= b && b <= 236) || b == 238 || b == 239 {
        n - i >= 3 && 128 <= v[i + 1] && v[i + 1] < 192 && 128 <= v[i + 2] && v[i + 2] < 192
            && valid_utf8_exec(v, i + 3)
    } else if b == 237 {
        n - i >= 3 && 128 <= v[i + 1] && v[i + 1] < 160 && 128 <= v[i + 2] && v[i + 2] < 192
            && valid_utf8_exec(v, i + 3)
    } else if b == 240 {
        n - i >= 4 && 144 <= v[i + 1] && v[i + 1] < 192 && 128 <= v[i + 2] && v[i + 2] < 192 && 128
            <= v[i + 3] && v[i + 3] < 192 && valid_utf8_exec(v, i + 4)
    } else if 241 <= b && b <= 243 {
        n - i >= 4 && 128 <= v[i + 1] && v[i + 1] < 192 && 128 <= v[i + 2] && v[i + 2] < 192 && 128
            <= v[i + 3] && v[i + 3] < 192 && valid_utf8_exec(v, i + 4)
    } else if b == 244 {
        n - i >= 4 && 128 <= v[i + 1] && v[i + 1] < 144 && 128 <= v[i + 2] && v[i + 2] < 192 && 128
            <= v[i + 3] && v[i + 3] < 192 && valid_utf8_exec(v, i + 4)
    } else {
        false
    }
}

/// Exec mirror of [`scan_quoted`].
fn scan_quoted_exec(v: &Vec<u8>, i: usize) -> (r: Option<(Vec<u8>, usize)>)
    requires
        i <= v@.len(),
    ensures
        match (r, scan_quoted(v@, i as int)) {
            (Some(p), Some(sp)) => p.0@ == sp.0 && p.1 as int == sp.1 && i < p.1 <= v@.len(),
            (None, None) => true,
            _ => false,
        },
    decreases v@.len() - i,
{
    let n = v.len();
    if i >= n {
        return None;
    }
    if v[i] == DQUOTE {
        let empty: Vec<u8> = Vec::new();
        proof {
            assert(empty@ =~= Seq::<u8>::empty());
        }
        return Some((empty, i + 1));
    }
    if v[i] == BACKSLASH {
        if i + 1 < n {
            match scan_quoted_exec(v, i + 2) {
                Some((mut val, e)) => {
                    let ghost gval = val@;
                    val.insert(0, v[i + 1]);
                    proof {
                        assert(val@ =~= seq![v@[i as int + 1]] + gval);
                    }
                    Some((val, e))
                },
                None => None,
            }
        } else {
            None
        }
    } else {
        match scan_quoted_exec(v, i + 1) {
            Some((mut val, e)) => {
                let ghost gval = val@;
                val.insert(0, v[i]);
                proof {
                    assert(val@ =~= seq![v@[i as int]] + gval);
                }
                Some((val, e))
            },
            None => None,
        }
    }
}

/// Exec mirror of [`decode_ext_value`].
fn decode_ext_value_exec(v: &Vec<u8>) -> (r: Option<Vec<u8>>)
    ensures
        match (r, decode_ext_value(v@)) {
            (Some(b), Some(sb)) => b@ == sb,
            (None, None) => true,
            _ => false,
        },
{
    let n = v.len();
    let q1 = find_byte_exec(v, 0, SQUOTE);
    if q1 >= n {
        return None;
    }
    let q2 = find_byte_exec(v, q1 + 1, SQUOTE);
    if q2 >= n {
        return None;
    }
    let kw = kw_utf8_vec();
    if !range_lower_is(v, 0, q1, &kw) {
        return None;
    }
    match pct_decode_exec(v, q2 + 1) {
        Some(b) => {
            if valid_utf8_exec(&b, 0) {
                Some(b)
            } else {
                None
            }
        },
        None => None,
    }
}

/// Exec mirror of [`spec_parse_params`].
pub(crate) fn parse_params(v: &Vec<u8>, i: usize) -> (r: Result<
    Vec<(Vec<u8>, Vec<u8>)>,
    UploadError,
>)
    requires
        i <= v@.len(),
    ensures
        match r {
            Ok(ps) => spec_parse_params(v@, i as int) == Some(pairs_view(ps@)),
            Err(e) => e == UploadError::MalformedHeader && spec_parse_params(v@, i as int) is None,
        },
    decreases v@.len() - i,
{
    let n = v.len();
    let j = skip_ws_exec(v, i, n);
    if j >= n {
        let ps: Vec<(Vec<u8>, Vec<u8>)> = Vec::new();
        proof {
            assert(pairs_view(ps@) =~= Seq::<(Seq<u8>, Seq<u8>)>::empty());
        }
        return Ok(ps);
    }
    let eq = find_byte_exec(v, j, EQ);
    if eq >= n {
        return Err(UploadError::MalformedHeader);
    }
    let raw = trimmed_vec(v, j, eq);
    if !token_ok_exec(&raw) {
        return Err(UploadError::MalformedHeader);
    }
    let name = lower_vec(&raw);
    let k = skip_ws_exec(v, eq + 1, n);
    if name[name.len() - 1] == STAR {
        let vend = find_byte_exec(v, k, SEMI);
        let rawv = trimmed_vec(v, k, vend);
        match decode_ext_value_exec(&rawv) {
            Some(value) => {
                if vend >= n {
                    let mut ps: Vec<(Vec<u8>, Vec<u8>)> = Vec::new();
                    let ghost gname = name@;
                    let ghost gvalue = value@;
                    ps.push((name, value));
                    proof {
                        assert(pairs_view(ps@) =~= seq![(gname, gvalue)]);
                    }
                    Ok(ps)
                } else {
                    match parse_params(v, vend + 1) {
                        Ok(mut rest) => {
                            let ghost grest = pairs_view(rest@);
                            let ghost gname = name@;
                            let ghost gvalue = value@;
                            rest.insert(0, (name, value));
                            proof {
                                assert(pairs_view(rest@) =~= seq![(gname, gvalue)] + grest);
                            }
                            Ok(rest)
                        },
                        Err(err) => Err(err),
                    }
                }
            },
            None => Err(UploadError::MalformedHeader),
        }
    } else if k < n && v[k] == DQUOTE {
        match scan_quoted_exec(v, k + 1) {
            Some((value, e)) => {
                let m = skip_ws_exec(v, e, n);
                if m >= n {
                    let mut ps: Vec<(Vec<u8>, Vec<u8>)> = Vec::new();
                    let ghost gname = name@;
                    let ghost gvalue = value@;
                    ps.push((name, value));
                    proof {
                        assert(pairs_view(ps@) =~= seq![(gname, gvalue)]);
                    }
                    Ok(ps)
                } else if v[m] == SEMI {
                    match parse_params(v, m + 1) {
                        Ok(mut rest) => {
                            let ghost grest = pairs_view(rest@);
                            let ghost gname = name@;
                            let ghost gvalue = value@;
                            rest.insert(0, (name, value));
                            proof {
                                assert(pairs_view(rest@) =~= seq![(gname, gvalue)] + grest);
                            }
                            Ok(rest)
                        },
                        Err(err) => Err(err),
                    }
                } else {
                    Err(UploadError::MalformedHeader)
                }
            },
            None => Err(UploadError::MalformedHeader),
        }
    } else {
        let vend = find_byte_exec(v, k, SEMI);
        let value = trimmed_vec(v, k, vend);
        if vend >= n {
            let mut ps: Vec<(Vec<u8>, Vec<u8>)> = Vec::new();
            let ghost gname = name@;
            let ghost gvalue = value@;
            ps.push((name, value));
            proof {
                assert(pairs_view(ps@) =~= seq![(gname, gvalue)]);
            }
            Ok(ps)
        } else {
            match parse_params(v, vend + 1) {
                Ok(mut rest) => {
                    let ghost grest = pairs_view(rest@);
                    let ghost gname = name@;
                    let ghost gvalue = value@;
                    rest.insert(0, (name, value));
                    proof {
                        assert(pairs_view(rest@) =~= seq![(gname, gvalue)] + grest);
                    }
                    Ok(rest)
                },
                Err(err) => Err(err),
            }
        }
    }
}

/// Exec mirror of [`find_param`], from entry `t` on.
pub(crate) fn find_param_from(ps: &Vec<(Vec<u8>, Vec<u8>)>, t: usize, key: &Vec<u8>) -> (r: Option<
    Vec<u8>,
>)
    requires
        t <= ps@.len(),
    ensures
        match r {
            Some(b) => find_param(pairs_view(ps@).skip(t as int), key@) == Some(b@),
            None => find_param(pairs_view(ps@).skip(t as int), key@) is None,
        },
    decreases ps@.len() - t,
{
    if t >= ps.len() {
        proof {
            assert(pairs_view(ps@).skip(t as int) =~= Seq::<(Seq<u8>, Seq<u8>)>::empty());
        }
        return None;
    }
    proof {
        assert(pairs_view(ps@).skip(t as int)[0] == (ps@[t as int].0@, ps@[t as int].1@));
    }
    if vec_eq(&ps[t].0, key) {
        let pair = &ps[t];
        let value = subrange_vec(&pair.1, 0, pair.1.len());
        proof {
            assert(value@ =~= ps@[t as int].1@);
        }
        Some(value)
    } else {
        let r = find_param_from(ps, t + 1, key);
        proof {
            assert(pairs_view(ps@).skip(t as int).skip(1) =~= pairs_view(ps@).skip(t as int + 1));
        }
        r
    }
}

/// Exec mirror of [`spec_filename_of`].
pub(crate) fn filename_of_exec(ps: &Vec<(Vec<u8>, Vec<u8>)>) -> (r: Option<Vec<u8>>)
    ensures
        match r {
            Some(b) => spec_filename_of(pairs_view(ps@)) == Some(b@),
            None => spec_filename_of(pairs_view(ps@)) is None,
        },
{
    proof {
        assert(pairs_view(ps@).skip(0) =~= pairs_view(ps@));
    }
    let ext = kw_filename_ext_vec();
    match find_param_from(ps, 0, &ext) {
        Some(b) => Some(b),
        None => {
            let plain = kw_filename_vec();
            find_param_from(ps, 0, &plain)
        },
    }
}

} // verus!
