//! Byte-level helpers shared by the header grammars and the sanitizer:
//! ASCII case folding, whitespace trimming, byte and substring search,
//! and the keyword byte strings the grammars compare against.

use vstd::prelude::*;

verus! {

/// ASCII space.
pub const SP: u8 = 32;
/// ASCII horizontal tab.
pub const HT: u8 = 9;
/// ASCII `-`.
pub const DASH: u8 = 45;
/// ASCII carriage return.
pub const CR: u8 = 13;
/// ASCII line feed.
pub const LF: u8 = 10;

/// Linear whitespace inside a header value: space or horizontal tab.
pub open spec fn is_ws(b: u8) -> bool {
    b == SP || b == HT
}

/// ASCII case folding of one byte: `A`..`Z` maps to `a`..`z`.
pub open spec fn lower(b: u8) -> u8 {
    if 65 <= b && b <= 90 {
        (b + 32) as u8
    } else {
        b
    }
}

/// ASCII case folding of a byte string.
pub open spec fn lower_seq(s: Seq<u8>) -> Seq<u8> {
    s.map_values(|b: u8| lower(b))
}

/// First index at or past `i` (and before `j`) that holds a byte that is
/// not linear whitespace; `j` when there is none.
pub open spec fn skip_ws_to(s: Seq<u8>, i: int, j: int) -> int
    decreases j - i,
{
    if i < j && is_ws(s[i]) {
        skip_ws_to(s, i + 1, j)
    } else {
        i
    }
}

pub proof fn lemma_skip_ws_to(s: Seq<u8>, i: int, j: int)
    requires
        i <= j,
    ensures
        i <= skip_ws_to(s, i, j) <= j,
    decreases j - i,
{
    if i < j && is_ws(s[i]) {
        lemma_skip_ws_to(s, i + 1, j);
    }
}

/// End of the range `[i, j)` once trailing linear whitespace is dropped.
pub open spec fn rtrim_to(s: Seq<u8>, i: int, j: int) -> int
    decreases j - i,
{
    if i < j && is_ws(s[j - 1]) {
        rtrim_to(s, i, j - 1)
    } else {
        j
    }
}

/// The range `[i, j)` of `s` with leading and trailing linear whitespace
/// removed.
pub open spec fn trimmed(s: Seq<u8>, i: int, j: int) -> Seq<u8> {
    let a = skip_ws_to(s, i, j);
    let b = rtrim_to(s, a, j);
    s.subrange(a, b)
}

/// First index at or past `i` where `b` stands, or `s.len()` if `b` does
/// not occur there.
pub open spec fn find_byte(s: Seq<u8>, i: int, b: u8) -> int
    decreases s.len() - i,
{
    if i >= s.len() {
        s.len() as int
    } else if s[i] == b {
        i
    } else {
        find_byte(s, i + 1, b)
    }
}

pub proof fn lemma_find_byte(s: Seq<u8>, i: int, b: u8)
    requires
        0 <= i <= s.len(),
    ensures
        i <= find_byte(s, i, b) <= s.len(),
        find_byte(s, i, b) < s.len() ==> s[find_byte(s, i, b)] == b,
        forall|k: int| i <= k < find_byte(s, i, b) ==> s[k] != b,
    decreases s.len() - i,
{
    if i < s.len() && s[i] != b {
        lemma_find_byte(s, i + 1, b);
    }
}

/// The bytes `pat` stand in `s` starting at `j`.
pub open spec fn matches_at(s: Seq<u8>, j: int, pat: Seq<u8>) -> bool {
    0 <= j && j + pat.len() <= s.len() && s.subrange(j, j + pat.len()) == pat
}

/// First index at or past `i` where `pat` stands in `s`; `-1` if it
/// stands nowhere there, and also for an empty `pat`, which no caller
/// searches for.
pub open spec fn find_sub(s: Seq<u8>, i: int, pat: Seq<u8>) -> int
    decreases s.len() - i,
{
    if i < 0 || pat.len() == 0 || i + pat.len() > s.len() {
        -1
    } else if matches_at(s, i, pat) {
        i
    } else {
        find_sub(s, i + 1, pat)
    }
}

pub proof fn lemma_find_sub(s: Seq<u8>, i: int, pat: Seq<u8>)
    requires
        0 <= i,
        pat.len() > 0,
    ensures
        find_sub(s, i, pat) == -1 || i <= find_sub(s, i, pat),
        find_sub(s, i, pat) != -1 ==> matches_at(s, find_sub(s, i, pat), pat),
        forall|k: int| i <= k < find_sub(s, i, pat) ==> !matches_at(s, k, pat),
        find_sub(s, i, pat) == -1 ==> forall|k: int| i <= k ==> !matches_at(s, k, pat),
    decreases s.len() - i,
{
    if i + pat.len() > s.len() {
        assert forall|k: int| i <= k implies !matches_at(s, k, pat) by {}
    } else if !matches_at(s, i, pat) {
        lemma_find_sub(s, i + 1, pat);
    }
}

/// Exec mirror of [`lower`].
pub fn lower_byte(b: u8) -> (r: u8)
    ensures
        r == lower(b),
{
    if 65 <= b && b <= 90 {
        b + 32
    } else {
        b
    }
}

/// Exec mirror of [`is_ws`].
pub fn is_ws_byte(b: u8) -> (r: bool)
    ensures
        r == is_ws(b),
{
    b == SP || b == HT
}

/// Exec mirror of [`skip_ws_to`].
pub fn skip_ws_exec(v: &Vec<u8>, i: usize, j: usize) -> (r: usize)
    requires
        i <= j <= v@.len(),
    ensures
        r == skip_ws_to(v@, i as int, j as int),
        i <= r <= j,
{
    let mut k = i;
    while k < j && is_ws_byte(v[k])
        invariant
            i <= k <= j <= v@.len(),
            skip_ws_to(v@, i as int, j as int) == skip_ws_to(v@, k as int, j as int),
        decreases j - k,
    {
        k = k + 1;
    }
    k
}

/// Exec mirror of [`rtrim_to`].
pub fn rtrim_exec(v: &Vec<u8>, i: usize, j: usize) -> (r: usize)
    requires
        i <= j <= v@.len(),
    ensures
        r == rtrim_to(v@, i as int, j as int),
        i <= r <= j,
{
    let mut k = j;
    while k > i && is_ws_byte(v[k - 1])
        invariant
            i <= k <= j <= v@.len(),
            rtrim_to(v@, i as int, j as int) == rtrim_to(v@, i as int, k as int),
        decreases k,
    {
        k = k - 1;
    }
    k
}

/// Exec mirror of [`find_byte`].
pub fn find_byte_exec(v: &Vec<u8>, i: usize, b: u8) -> (r: usize)
    requires
        i <= v@.len(),
    ensures
        r == find_byte(v@, i as int, b),
        i <= r <= v@.len(),
{
    let mut k = i;
    while k < v.len() && v[k] != b
        invariant
            i <= k <= v@.len(),
            find_byte(v@, i as int, b) == find_byte(v@, k as int, b),
        decreases v@.len() - k,
    {
        k = k + 1;
    }
    k
}

/// Copies the range `[i, j)` of `v` into a fresh vector.
pub fn subrange_vec(v: &Vec<u8>, i: usize, j: usize) -> (r: Vec<u8>)
    requires
        i <= j <= v@.len(),
    ensures
        r@ == v@.subrange(i as int, j as int),
{
    let mut r: Vec<u8> = Vec::new();
    let mut k = i;
    while k < j
        invariant
            i <= k <= j <= v@.len(),
            r@ == v@.subrange(i as int, k as int),
        decreases j - k,
    {
        r.push(v[k]);
        k = k + 1;
        proof {
            assert(r@ =~= v@.subrange(i as int, k as int));
        }
    }
    r
}

/// Copies the range `[i, j)` of `v`, trimmed of linear whitespace.
pub fn trimmed_vec(v: &Vec<u8>, i: usize, j: usize) -> (r: Vec<u8>)
    requires
        i <= j <= v@.len(),
    ensures
        r@ == trimmed(v@, i as int, j as int),
{
    let a = skip_ws_exec(v, i, j);
    let b = rtrim_exec(v, a, j);
    subrange_vec(v, a, b)
}

/// Copies the range `[i, j)` of `v`, trimmed and case-folded.
pub fn trimmed_lower_vec(v: &Vec<u8>, i: usize, j: usize) -> (r: Vec<u8>)
    requires
        i <= j <= v@.len(),
    ensures
        r@ == lower_seq(trimmed(v@, i as int, j as int)),
{
    let t = trimmed_vec(v, i, j);
    let mut r: Vec<u8> = Vec::new();
    let mut k: usize = 0;
    while k < t.len()
        invariant
            k <= t@.len(),
            r@ == lower_seq(t@.subrange(0, k as int)),
        decreases t@.len() - k,
    {
        r.push(lower_byte(t[k]));
        k = k + 1;
        proof {
            assert(r@ =~= lower_seq(t@.subrange(0, k as int)));
        }
    }
    proof {
        assert(t@.subrange(0, t@.len() as int) =~= t@);
    }
    r
}

/// Case-folded copy of `v`.
pub fn lower_vec(v: &Vec<u8>) -> (r: Vec<u8>)
    ensures
        r@ == lower_seq(v@),
{
    let mut r: Vec<u8> = Vec::new();
    let mut k: usize = 0;
    while k < v.len()
        invariant
            k <= v@.len(),
            r@ == lower_seq(v@.subrange(0, k as int)),
        decreases v@.len() - k,
    {
        r.push(lower_byte(v[k]));
        k = k + 1;
        proof {
            assert(r@ =~= lower_seq(v@.subrange(0, k as int)));
        }
    }
    proof {
        assert(v@.subrange(0, v@.len() as int) =~= v@);
    }
    r
}

/// Exec mirror of [`matches_at`].
pub fn matches_at_exec(v: &Vec<u8>, j: usize, pat: &Vec<u8>) -> (r: bool)
    requires
        j <= v@.len(),
    ensures
        r == matches_at(v@, j as int, pat@),
{
    let n = v.len();
    if n - j < pat.len() {
        return false;
    }
    let mut k: usize = 0;
    while k < pat.len()
        invariant
            k <= pat@.len(),
            n == v@.len(),
            j + pat@.len() <= n,
            forall|t: int| 0 <= t < k ==> v@[j + t] == pat@[t],
        decreases pat@.len() - k,
    {
        if v[j + k] != pat[k] {
            assert(v@.subrange(j as int, j + pat@.len())[k as int] != pat@[k as int]);
            return false;
        }
        k = k + 1;
    }
    proof {
        assert(v@.subrange(j as int, j + pat@.len()) =~= pat@);
    }
    true
}

/// Exec mirror of [`find_sub`]; returns `None` where the spec returns `-1`.
pub fn find_sub_exec(v: &Vec<u8>, i: usize, pat: &Vec<u8>) -> (r: Option<usize>)
    requires
        i <= v@.len(),
    ensures
        match r {
            Some(k) => i <= k && k == find_sub(v@, i as int, pat@),
            None => find_sub(v@, i as int, pat@) == -1,
        },
{
    if pat.len() == 0 || pat.len() > v.len() {
        return None;
    }
    let last = v.len() - pat.len();
    let mut k = i;
    while k <= last
        invariant
            i <= k <= v@.len(),
            v@.len() <= usize::MAX,
            pat@.len() >= 1,
            last == v@.len() - pat@.len(),
            find_sub(v@, i as int, pat@) == find_sub(v@, k as int, pat@),
        decreases v@.len() - k,
    {
        if matches_at_exec(v, k, pat) {
            return Some(k);
        }
        k = k + 1;
    }
    None
}

/// `v[i..j]`, case-folded, equals the keyword `kw`.
pub fn range_lower_is(v: &Vec<u8>, i: usize, j: usize, kw: &Vec<u8>) -> (r: bool)
    requires
        i <= j <= v@.len(),
    ensures
        r == (lower_seq(v@.subrange(i as int, j as int)) == kw@),
{
    if j - i != kw.len() {
        proof {
            assert(lower_seq(v@.subrange(i as int, j as int)).len() == j - i);
        }
        return false;
    }
    let mut k: usize = 0;
    while k < kw.len()
        invariant
            k <= kw@.len(),
            i + kw@.len() == j <= v@.len(),
            forall|t: int| 0 <= t < k ==> lower(v@[i + t]) == kw@[t],
        decreases kw@.len() - k,
    {
        if lower_byte(v[i + k]) != kw[k] {
            assert(lower_seq(v@.subrange(i as int, j as int))[k as int] != kw@[k as int]);
            return false;
        }
        k = k + 1;
    }
    proof {
        assert(lower_seq(v@.subrange(i as int, j as int)) =~= kw@);
    }
    true
}

/// Byte-for-byte equality of two byte strings.
pub fn vec_eq(a: &Vec<u8>, b: &Vec<u8>) -> (r: bool)
    ensures
        r == (a@ == b@),
{
    if a.len() != b.len() {
        return false;
    }
    let mut k: usize = 0;
    while k < a.len()
        invariant
            k <= a@.len(),
            a@.len() == b@.len(),
            forall|t: int| 0 <= t < k ==> a@[t] == b@[t],
        decreases a@.len() - k,
    {
        if a[k] != b[k] {
            return false;
        }
        k = k + 1;
    }
    proof {
        assert(a@ =~= b@);
    }
    true
}

/// Appends all bytes of `src` to `dst`.
pub fn append_bytes(dst: &mut Vec<u8>, src: &Vec<u8>)
    ensures
        final(dst)@ == old(dst)@ + src@,
{
    let mut k: usize = 0;
    while k < src.len()
        invariant
            k <= src@.len(),
            dst@ == old(dst)@ + src@.subrange(0, k as int),
        decreases src@.len() - k,
    {
        dst.push(src[k]);
        k = k + 1;
        proof {
            assert(dst@ =~= old(dst)@ + src@.subrange(0, k as int));
        }
    }
    proof {
        assert(old(dst)@ + src@.subrange(0, src@.len() as int) =~= old(dst)@ + src@);
    }
}

/// `inline`
pub open spec fn kw_inline() -> Seq<u8> {
    seq![105u8, 110u8, 108u8, 105u8, 110u8, 101u8]
}

/// `form-data`
pub open spec fn kw_form_data() -> Seq<u8> {
    seq![102u8, 111u8, 114u8, 109u8, 45u8, 100u8, 97u8, 116u8, 97u8]
}

/// `filename`
pub open spec fn kw_filename() -> Seq<u8> {
    seq![102u8, 105u8, 108u8, 101u8, 110u8, 97u8, 109u8, 101u8]
}

/// `filename*`
pub open spec fn kw_filename_ext() -> Seq<u8> {
    seq![102u8, 105u8, 108u8, 101u8, 110u8, 97u8, 109u8, 101u8, 42u8]
}

/// `name`
pub open spec fn kw_name() -> Seq<u8> {
    seq![110u8, 97u8, 109u8, 101u8]
}

/// `utf-8`
pub open spec fn kw_utf8() -> Seq<u8> {
    seq![117u8, 116u8, 102u8, 45u8, 56u8]
}

/// `content-disposition`
pub open spec fn kw_content_disposition() -> Seq<u8> {
    seq![
        99u8, 111u8, 110u8, 116u8, 101u8, 110u8, 116u8, 45u8, 100u8, 105u8, 115u8, 112u8, 111u8,
        115u8, 105u8, 116u8, 105u8, 111u8, 110u8,
    ]
}

/// `boundary`
pub open spec fn kw_boundary() -> Seq<u8> {
    seq![98u8, 111u8, 117u8, 110u8, 100u8, 97u8, 114u8, 121u8]
}

/// `multipart/form-data`
pub open spec fn kw_multipart_form_data() -> Seq<u8> {
    seq![
        109u8, 117u8, 108u8, 116u8, 105u8, 112u8, 97u8, 114u8, 116u8, 47u8, 102u8, 111u8, 114u8,
        109u8, 45u8, 100u8, 97u8, 116u8, 97u8,
    ]
}

/// Builds the byte string `inline`.
pub fn kw_inline_vec() -> (r: Vec<u8>)
    ensures
        r@ == kw_inline(),
{
    let mut v: Vec<u8> = Vec::new();
    v.push(105u8);
    v.push(110u8);
    v.push(108u8);
    v.push(105u8);
    v.push(110u8);
    v.push(101u8);
    proof {
        assert(v@ =~= kw_inline());
    }
    v
}

/// Builds the byte string `form-data`.
pub fn kw_form_data_vec() -> (r: Vec<u8>)
    ensures
        r@ == kw_form_data(),
{
    let mut v: Vec<u8> = Vec::new();
    v.push(102u8);
    v.push(111u8);
    v.push(114u8);
    v.push(109u8);
    v.push(45u8);
    v.push(100u8);
    v.push(97u8);
    v.push(116u8);
    v.push(97u8);
    proof {
        assert(v@ =~= kw_form_data());
    }
    v
}

/// Builds the byte string `filename`.
pub fn kw_filename_vec() -> (r: Vec<u8>)
    ensures
        r@ == kw_filename(),
{
    let mut v: Vec<u8> = Vec::new();
    v.push(102u8);
    v.push(105u8);
    v.push(108u8);
    v.push(101u8);
    v.push(110u8);
    v.push(97u8);
    v.push(109u8);
    v.push(101u8);
    proof {
        assert(v@ =~= kw_filename());
    }
    v
}

/// Builds the byte string `filename*`.
pub fn kw_filename_ext_vec() -> (r: Vec<u8>)
    ensures
        r@ == kw_filename_ext(),
{
    let mut v = kw_filename_vec();
    v.push(42u8);
    proof {
        assert(v@ =~= kw_filename_ext());
    }
    v
}

/// Builds the byte string `name`.
pub fn kw_name_vec() -> (r: Vec<u8>)
    ensures
        r@ == kw_name(),
{
    let mut v: Vec<u8> = Vec::new();
    v.push(110u8);
    v.push(97u8);
    v.push(109u8);
    v.push(101u8);
    proof {
        assert(v@ =~= kw_name());
    }
    v
}

/// Builds the byte string `utf-8`.
pub fn kw_utf8_vec() -> (r: Vec<u8>)
    ensures
        r@ == kw_utf8(),
{
    let mut v: Vec<u8> = Vec::new();
    v.push(117u8);
    v.push(116u8);
    v.push(102u8);
    v.push(45u8);
    v.push(56u8);
    proof {
        assert(v@ =~= kw_utf8());
    }
    v
}

/// Builds the byte string `content-disposition`.
pub fn kw_content_disposition_vec() -> (r: Vec<u8>)
    ensures
        r@ == kw_content_disposition(),
{
    let mut v: Vec<u8> = Vec::new();
    v.push(99u8);
    v.push(111u8);
    v.push(110u8);
    v.push(116u8);
    v.push(101u8);
    v.push(110u8);
    v.push(116u8);
    v.push(45u8);
    v.push(100u8);
    v.push(105u8);
    v.push(115u8);
    v.push(112u8);
    v.push(111u8);
    v.push(115u8);
    v.push(105u8);
    v.push(116u8);
    v.push(105u8);
    v.push(111u8);
    v.push(110u8);
    proof {
        assert(v@ =~= kw_content_disposition());
    }
    v
}

/// Builds the byte string `boundary`.
pub fn kw_boundary_vec() -> (r: Vec<u8>)
    ensures
        r@ == kw_boundary(),
{
    let mut v: Vec<u8> = Vec::new();
    v.push(98u8);
    v.push(111u8);
    v.push(117u8);
    v.push(110u8);
    v.push(100u8);
    v.push(97u8);
    v.push(114u8);
    v.push(121u8);
    proof {
        assert(v@ =~= kw_boundary());
    }
    v
}

/// Builds the byte string `multipart/form-data`.
pub fn kw_multipart_form_data_vec() -> (r: Vec<u8>)
    ensures
        r@ == kw_multipart_form_data(),
{
    let mut v: Vec<u8> = Vec::new();
    v.push(109u8);
    v.push(117u8);
    v.push(108u8);
    v.push(116u8);
    v.push(105u8);
    v.push(112u8);
    v.push(97u8);
    v.push(114u8);
    v.push(116u8);
    v.push(47u8);
    v.push(102u8);
    v.push(111u8);
    v.push(114u8);
    v.push(109u8);
    v.push(45u8);
    v.push(100u8);
    v.push(97u8);
    v.push(116u8);
    v.push(97u8);
    proof {
        assert(v@ =~= kw_multipart_form_data());
    }
    v
}

} // verus!
