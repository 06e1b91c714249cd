//! Path sanitization: turning a client-supplied filename into a destination
//! that provably stays inside the upload root.
//!
//! A candidate name is accepted only as a single path segment: non-empty,
//! not `.` and not `..`, and free of `/` and `\`. Every accepted name,
//! joined to the upload root, yields a path whose parent is exactly the
//! root, so neither a write (`POST /upload`) nor a read (`GET /files/..`)
//! routed through here can escape it.

use vstd::prelude::*;

use crate::errors::UploadError;

verus! {

/// ASCII `/`.
pub const SLASH: u8 = 47;
/// ASCII `\`.
pub const BACKSLASH: u8 = 92;
/// ASCII `.`.
pub const DOT: u8 = 46;

/// A path separator of either platform convention.
pub open spec fn is_separator(b: u8) -> bool {
    b == SLASH || b == BACKSLASH
}

/// Some byte of `s` is a path separator.
pub open spec fn has_separator(s: Seq<u8>) -> bool {
    exists|i: int| 0 <= i < s.len() && is_separator(s[i])
}

/// A candidate filename the sanitizer accepts: one non-empty path segment
/// that is neither `.` nor `..` and smuggles no separator.
pub open spec fn valid_name(s: Seq<u8>) -> bool {
    &&& s.len() > 0
    &&& s != seq![DOT]
    &&& s != seq![DOT, DOT]
    &&& !has_separator(s)
}

/// How an unacceptable candidate is classified: an empty or `.` name is
/// merely invalid, while `..` and smuggled separators are traversal
/// attempts.
pub open spec fn name_error(s: Seq<u8>) -> UploadError
    recommends
        !valid_name(s),
{
    if s.len() == 0 || s == seq![DOT] {
        UploadError::InvalidName
    } else {
        UploadError::PathEscape
    }
}

/// The destination path for `name` under `root`.
pub open spec fn joined(root: Seq<u8>, name: Seq<u8>) -> Seq<u8> {
    root + seq![SLASH] + name
}

/// Index of the last path separator in `s`, or `-1` if none occurs.
pub open spec fn last_sep_index(s: Seq<u8>) -> int
    decreases s.len(),
{
    if s.len() == 0 {
        -1
    } else if is_separator(s.last()) {
        s.len() - 1
    } else {
        last_sep_index(s.drop_last())
    }
}

/// The lexical parent of a path: everything before its last separator.
pub open spec fn parent_of(s: Seq<u8>) -> Seq<u8> {
    if last_sep_index(s) >= 0 {
        s.subrange(0, last_sep_index(s))
    } else {
        Seq::empty()
    }
}

/// A destination proven to lie inside the upload root. Constructed only by
/// [`PathSanitizer::resolve`] (and by collision renaming, which preserves
/// validity); never from unvalidated input.
#[derive(Debug)]
pub struct SanitizedPath {
    root: Vec<u8>,
    name: Vec<u8>,
}

impl SanitizedPath {
    /// The upload root this destination was resolved under.
    pub closed spec fn spec_root(&self) -> Seq<u8> {
        self.root@
    }

    /// The validated single-segment filename.
    pub closed spec fn spec_name(&self) -> Seq<u8> {
        self.name@
    }

    /// Well-formedness: the filename is a valid single segment.
    pub open spec fn wf(&self) -> bool {
        valid_name(self.spec_name())
    }

    /// The validated filename.
    pub fn name(&self) -> (r: &Vec<u8>)
        ensures
            r@ == self.spec_name(),
    {
        &self.name
    }

    /// The upload root.
    pub fn root(&self) -> (r: &Vec<u8>)
        ensures
            r@ == self.spec_root(),
    {
        &self.root
    }

    /// The full destination path, `root` + `/` + `name`.
    pub fn joined_path(&self) -> (r: Vec<u8>)
        ensures
            r@ == joined(self.spec_root(), self.spec_name()),
    {
        let mut r = crate::bytes_util::subrange_vec(&self.root, 0, self.root.len());
        proof {
            assert(r@ =~= self.root@);
        }
        r.push(SLASH);
        crate::bytes_util::append_bytes(&mut r, &self.name);
        proof {
            assert(r@ =~= joined(self.spec_root(), self.spec_name()));
        }
        r
    }

    /// A copy of this destination.
    pub fn duplicate(&self) -> (r: SanitizedPath)
        ensures
            r.spec_root() == self.spec_root(),
            r.spec_name() == self.spec_name(),
    {
        let root = crate::bytes_util::subrange_vec(&self.root, 0, self.root.len());
        let name = crate::bytes_util::subrange_vec(&self.name, 0, self.name.len());
        proof {
            assert(root@ =~= self.root@);
            assert(name@ =~= self.name@);
        }
        SanitizedPath { root, name }
    }

    /// A destination in the same root under another validated name; used
    /// when a collision is resolved by renaming.
    pub(crate) fn sibling(&self, name: Vec<u8>) -> (r: SanitizedPath)
        requires
            valid_name(name@),
        ensures
            r.wf(),
            r.spec_root() == self.spec_root(),
            r.spec_name() == name@,
    {
        let root = crate::bytes_util::subrange_vec(&self.root, 0, self.root.len());
        proof {
            assert(root@ =~= self.root@);
        }
        SanitizedPath { root, name }
    }
}

/// Resolves candidate filenames into safe destinations inside an upload
/// root; the single gate for write and read access alike.
pub struct PathSanitizer {}

impl PathSanitizer {
    /// Decides [`valid_name`] for a candidate.
    pub fn check_name(name: &Vec<u8>) -> (r: bool)
        ensures
            r == valid_name(name@),
    {
        if name.len() == 0 {
            return false;
        }
        if name.len() == 1 && name[0] == DOT {
            proof {
                assert(name@ =~= seq![DOT]);
            }
            return false;
        }
        if name.len() == 2 && name[0] == DOT && name[1] == DOT {
            proof {
                assert(name@ =~= seq![DOT, DOT]);
            }
            return false;
        }
        let mut k: usize = 0;
        while k < name.len()
            invariant
                k <= name@.len(),
                forall|t: int| 0 <= t < k ==> !is_separator(name@[t]),
            decreases name@.len() - k,
        {
            if name[k] == SLASH || name[k] == BACKSLASH {
                return false;
            }
            k = k + 1;
        }
        proof {
            if name@ == seq![DOT] {
                assert(name@[0] == DOT);
            }
            if name@ == seq![DOT, DOT] {
                assert(name@[0] == DOT && name@[1] == DOT);
            }
        }
        true
    }

    /// Resolves a client-supplied filename to a destination under
    /// `root`. Succeeds exactly on valid single-segment names; everything
    /// else is refused as [`UploadError::InvalidName`] or
    /// [`UploadError::PathEscape`], per [`name_error`].
    pub fn resolve(root: &Vec<u8>, name: &Vec<u8>) -> (r: Result<SanitizedPath, UploadError>)
        ensures
            match r {
                Ok(p) => valid_name(name@) && p.wf() && p.spec_root() == root@ && p.spec_name()
                    == name@,
                Err(e) => !valid_name(name@) && e == name_error(name@),
            },
    {
        if !Self::check_name(name) {
            let e = if name.len() == 0 {
                UploadError::InvalidName
            } else if name.len() == 1 && name[0] == DOT {
                proof {
                    assert(name@ =~= seq![DOT]);
                }
                UploadError::InvalidName
            } else {
                proof {
                    if name@ == seq![DOT] {
                        assert(name@.len() == 1 && name@[0] == DOT);
                    }
                }
                UploadError::PathEscape
            };
            return Err(e);
        }
        let r = crate::bytes_util::subrange_vec(root, 0, root.len());
        let n = crate::bytes_util::subrange_vec(name, 0, name.len());
        proof {
            assert(r@ =~= root@);
            assert(n@ =~= name@);
        }
        Ok(SanitizedPath { root: r, name: n })
    }
}

/// Appending separator-free bytes to a path does not move its last
/// separator.
proof fn lemma_last_sep_append_clean(s: Seq<u8>, t: Seq<u8>)
    requires
        forall|i: int| 0 <= i < t.len() ==> !is_separator(t[i]),
    ensures
        last_sep_index(s + t) == last_sep_index(s),
    decreases t.len(),
{
    if t.len() == 0 {
        assert(s + t =~= s);
    } else {
        assert(!is_separator(t.last()));
        assert((s + t).last() == t.last());
        assert((s + t).drop_last() =~= s + t.drop_last());
        lemma_last_sep_append_clean(s, t.drop_last());
    }
}

/// Every candidate that smuggles a path separator, or is the bare `..`
/// segment, is refused, and refused as a path-security error — it can
/// never reach a destination outside the upload root.
pub proof fn lemma_traversal_rejected(name: Seq<u8>)
    requires
        has_separator(name) || name == seq![DOT, DOT],
    ensures
        !valid_name(name),
        name_error(name) == UploadError::PathEscape,
{
    if has_separator(name) {
        let i = choose|i: int| 0 <= i < name.len() && is_separator(name[i]);
        assert(name.len() > 0);
        if name == seq![DOT] {
            assert(name[i] == DOT);
        }
    } else {
        assert(name == seq![DOT, DOT]);
        assert(name.len() == 2);
    }
}

/// Every valid single-segment name resolves, and the resolved
/// destination's lexical parent is exactly the upload root.
pub proof fn lemma_resolved_parent_is_root(root: Seq<u8>, name: Seq<u8>)
    requires
        valid_name(name),
    ensures
        parent_of(joined(root, name)) == root,
{
    let rs = root + seq![SLASH];
    assert(rs.last() == SLASH);
    assert(last_sep_index(rs) == root.len());
    assert(forall|i: int| 0 <= i < name.len() ==> !is_separator(name[i])) by {
        assert(!has_separator(name));
    }
    lemma_last_sep_append_clean(rs, name);
    assert(joined(root, name) =~= rs + name);
    assert(last_sep_index(joined(root, name)) == root.len());
    assert(parent_of(joined(root, name)) =~= root);
}

} // verus!
