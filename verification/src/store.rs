//! The verified model of the upload root directory.
//!
//! `FileStore` records the finalized writes (the atomic renames) in order;
//! its view is the resulting directory: a map from filename to contents in
//! which the last write to a name wins — exactly the documented race
//! semantics of concurrent renames to one destination. The transport layer
//! mirrors every recorded write onto the real filesystem.

use vstd::prelude::*;

use crate::bytes_util::DASH;
use crate::errors::UploadError;
use crate::sanitize::{valid_name, SanitizedPath};

verus! {

/// What `persist` does when the destination name is already taken.
#[derive(Clone, Copy, Debug, PartialEq, Eq, Structural)]
pub enum CollisionPolicy {
    /// Replace the stored file; the default, and the documented
    /// last-rename-wins behaviour.
    Overwrite,
    /// Refuse the upload with `Conflict`.
    Reject,
    /// Store under the first free `name-k` variant instead.
    AutoRename,
}

/// Descriptor of a successfully persisted upload.
#[derive(Debug)]
pub struct StoredFile {
    /// Where the bytes now live; always inside the upload root.
    pub path: SanitizedPath,
    /// How many bytes were stored.
    pub size: usize,
}

/// The decimal digits of `n`, most significant first.
pub open spec fn dec_digits(n: nat) -> Seq<u8>
    decreases n,
{
    if n < 10 {
        seq![(48 + n) as u8]
    } else {
        dec_digits(n / 10) + seq![(48 + n % 10) as u8]
    }
}

pub proof fn lemma_dec_digits_bytes(n: nat)
    ensures
        dec_digits(n).len() >= 1,
        forall|i: int| 0 <= i < dec_digits(n).len() ==> 48 <= #[trigger] dec_digits(n)[i] <= 57,
    decreases n,
{
    if n >= 10 {
        lemma_dec_digits_bytes(n / 10);
    }
}

/// The `name-k` variant a collision is renamed to.
pub open spec fn renamed(name: Seq<u8>, k: nat) -> Seq<u8> {
    name + seq![DASH] + dec_digits(k)
}

/// Renaming preserves name validity: the suffix holds no separator and the
/// result is longer than `..`.
pub proof fn lemma_renamed_valid(name: Seq<u8>, k: nat)
    requires
        valid_name(name),
    ensures
        valid_name(renamed(name, k)),
{
    lemma_dec_digits_bytes(k);
    let r = renamed(name, k);
    assert(r.len() >= 3);
    assert(!crate::sanitize::has_separator(r)) by {
        assert forall|i: int| 0 <= i < r.len() implies !crate::sanitize::is_separator(r[i]) by {
            if i < name.len() {
                assert(!crate::sanitize::has_separator(name));
                assert(r[i] == name[i]);
            } else if i == name.len() {
                assert(r[i] == DASH);
            } else {
                assert(r[i] == dec_digits(k)[i - name.len() - 1]);
            }
        }
    }
}

/// The directory that results from a sequence of writes: later writes to a
/// name shadow earlier ones.
pub open spec fn log_map(s: Seq<(Vec<u8>, Vec<u8>)>) -> Map<Seq<u8>, Seq<u8>>
    decreases s.len(),
{
    if s.len() == 0 {
        Map::empty()
    } else {
        log_map(s.drop_last()).insert(s.last().0@, s.last().1@)
    }
}

/// If no write at or past `i` touches `key`, the directory agrees on `key`
/// with the directory of the first `i` writes.
proof fn lemma_log_map_unmatched_tail(s: Seq<(Vec<u8>, Vec<u8>)>, key: Seq<u8>, i: int)
    requires
        0 <= i <= s.len(),
        forall|j: int| i <= j < s.len() ==> #[trigger] s[j].0@ != key,
    ensures
        log_map(s).contains_key(key) == log_map(s.subrange(0, i)).contains_key(key),
        log_map(s).contains_key(key) ==> log_map(s)[key] == log_map(s.subrange(0, i))[key],
    decreases s.len() - i,
{
    if i == s.len() {
        assert(s.subrange(0, i) =~= s);
    } else {
        assert(s.last().0@ != key);
        lemma_log_map_unmatched_tail(s.drop_last(), key, i);
        assert(s.drop_last().subrange(0, i) =~= s.subrange(0, i));
    }
}

/// The managed upload directory, as the core sees it.
pub struct FileStore {
    writes: Vec<(Vec<u8>, Vec<u8>)>,
}

impl View for FileStore {
    type V = Map<Seq<u8>, Seq<u8>>;

    /// The store's model: filename to contents, last write wins.
    closed spec fn view(&self) -> Map<Seq<u8>, Seq<u8>> {
        log_map(self.writes@)
    }
}

impl FileStore {
    /// An empty upload root.
    pub fn new() -> (r: FileStore)
        ensures
            r@ == Map::<Seq<u8>, Seq<u8>>::empty(),
    {
        FileStore { writes: Vec::new() }
    }

    /// Records one finalized write.
    fn put(&mut self, name: &Vec<u8>, bytes: Vec<u8>)
        ensures
            final(self)@ == old(self)@.insert(name@, bytes@),
    {
        let ghost bytes_view = bytes@;
        let key = crate::bytes_util::subrange_vec(name, 0, name.len());
        proof {
            assert(key@ =~= name@);
        }
        self.writes.push((key, bytes));
        proof {
            assert(self.writes@.drop_last() =~= old(self).writes@);
            assert(self.writes@.last().0@ == name@);
            assert(self.writes@.last().1@ == bytes_view);
        }
    }

    /// Looks a stored file up by name, yielding a copy of its bytes; the
    /// verified read half of `GET /files/{name}`.
    pub fn read(&self, name: &Vec<u8>) -> (r: Option<Vec<u8>>)
        ensures
            match r {
                Some(b) => self@.contains_key(name@) && b@ == self@[name@],
                None => !self@.contains_key(name@),
            },
    {
        let mut i = self.writes.len();
        while i > 0
            invariant
                i <= self.writes@.len(),
                forall|j: int| i <= j < self.writes@.len() ==> #[trigger] self.writes@[j].0@
                    != name@,
            decreases i,
        {
            i = i - 1;
            if crate::bytes_util::vec_eq(&self.writes[i].0, name) {
                let pair = &self.writes[i];
                let bytes = crate::bytes_util::subrange_vec(&pair.1, 0, pair.1.len());
                proof {
                    assert(bytes@ =~= pair.1@);
                    let pre = self.writes@.subrange(0, i + 1);
                    lemma_log_map_unmatched_tail(self.writes@, name@, i + 1);
                    assert(pre.drop_last() =~= self.writes@.subrange(0, i as int));
                    assert(pre.last() == self.writes@[i as int]);
                }
                return Some(bytes);
            }
        }
        proof {
            lemma_log_map_unmatched_tail(self.writes@, name@, 0);
            assert(self.writes@.subrange(0, 0) =~= Seq::<(Vec<u8>, Vec<u8>)>::empty());
        }
        None
    }

    /// Whether a file is stored under `name`.
    pub fn contains(&self, name: &Vec<u8>) -> (r: bool)
        ensures
            r == self@.contains_key(name@),
    {
        match self.read(name) {
            Some(_) => true,
            None => false,
        }
    }

    /// Finalizes an upload at its sanitized destination, applying the
    /// configured collision policy. On success exactly one name gains
    /// exactly these bytes: the requested one, or — only under
    /// `AutoRename` on a taken name — a previously free `name-k` variant.
    /// `Overwrite` always succeeds; `Reject` fails with `Conflict` exactly
    /// when the name is taken; a failed persist leaves the store untouched.
    pub fn persist(&mut self, path: &SanitizedPath, bytes: Vec<u8>, policy: CollisionPolicy) -> (r:
        Result<StoredFile, UploadError>)
        requires
            path.wf(),
        ensures
            match r {
                Ok(sf) => {
                    &&& sf.path.wf()
                    &&& sf.path.spec_root() == path.spec_root()
                    &&& sf.size == bytes@.len()
                    &&& final(self)@ == old(self)@.insert(sf.path.spec_name(), bytes@)
                    &&& match policy {
                        CollisionPolicy::Overwrite => sf.path.spec_name() == path.spec_name(),
                        CollisionPolicy::Reject => sf.path.spec_name() == path.spec_name()
                            && !old(self)@.contains_key(path.spec_name()),
                        CollisionPolicy::AutoRename => if old(self)@.contains_key(
                            path.spec_name(),
                        ) {
                            &&& !old(self)@.contains_key(sf.path.spec_name())
                            &&& exists|k: nat|
                                sf.path.spec_name() == renamed(path.spec_name(), k)
                        } else {
                            sf.path.spec_name() == path.spec_name()
                        },
                    }
                },
                Err(e) => {
                    &&& e == UploadError::Conflict
                    &&& final(self)@ == old(self)@
                    &&& old(self)@.contains_key(path.spec_name())
                    &&& policy != CollisionPolicy::Overwrite
                },
            },
            policy == CollisionPolicy::Overwrite ==> r is Ok,
            policy == CollisionPolicy::Reject ==> (r is Ok <==> !old(self)@.contains_key(
                path.spec_name(),
            )),
    {
        let size = bytes.len();
        match policy {
            CollisionPolicy::Overwrite => {
                self.put(path.name(), bytes);
                Ok(StoredFile { path: path.duplicate(), size })
            },
            CollisionPolicy::Reject => {
                if self.contains(path.name()) {
                    Err(UploadError::Conflict)
                } else {
                    self.put(path.name(), bytes);
                    Ok(StoredFile { path: path.duplicate(), size })
                }
            },
            CollisionPolicy::AutoRename => {
                if !self.contains(path.name()) {
                    self.put(path.name(), bytes);
                    return Ok(StoredFile { path: path.duplicate(), size });
                }
                let mut k: u64 = 1;
                while k < u64::MAX
                    invariant
                        path.wf(),
                        policy == CollisionPolicy::AutoRename,
                        self@ == old(self)@,
                        old(self)@.contains_key(path.spec_name()),
                        size == bytes@.len(),
                    decreases u64::MAX - k,
                {
                    let cand = renamed_name(path.name(), k);
                    if !self.contains(&cand) {
                        proof {
                            lemma_renamed_valid(path.spec_name(), k as nat);
                        }
                        let ghost cand_view = cand@;
                        let sib = path.sibling(cand);
                        self.put(sib.name(), bytes);
                        proof {
                            assert(sib.spec_name() == renamed(path.spec_name(), k as nat));
                        }
                        return Ok(StoredFile { path: sib, size });
                    }
                    k = k + 1;
                }
                Err(UploadError::Conflict)
            },
        }
    }
}

/// Builds the `name-k` collision variant.
fn renamed_name(name: &Vec<u8>, k: u64) -> (r: Vec<u8>)
    ensures
        r@ == renamed(name@, k as nat),
{
    let mut r = crate::bytes_util::subrange_vec(name, 0, name.len());
    proof {
        assert(r@ =~= name@);
    }
    r.push(DASH);
    let d = dec_digits_exec(k);
    crate::bytes_util::append_bytes(&mut r, &d);
    proof {
        assert(r@ =~= renamed(name@, k as nat));
    }
    r
}

/// Renders `n` in decimal.
fn dec_digits_exec(n: u64) -> (r: Vec<u8>)
    ensures
        r@ == dec_digits(n as nat),
    decreases n,
{
    if n < 10 {
        let mut r: Vec<u8> = Vec::new();
        r.push(48 + (n as u8));
        proof {
            assert(r@ =~= dec_digits(n as nat));
        }
        r
    } else {
        let mut r = dec_digits_exec(n / 10);
        r.push(48 + ((n % 10) as u8));
        proof {
            assert(r@ =~= dec_digits(n as nat));
        }
        r
    }
}

/// Round trip: once bytes are persisted under a name, reading that name
/// back yields exactly those bytes.
pub proof fn lemma_round_trip(dir: Map<Seq<u8>, Seq<u8>>, name: Seq<u8>, bytes: Seq<u8>)
    ensures
        dir.insert(name, bytes).contains_key(name),
        dir.insert(name, bytes)[name] == bytes,
{
}

/// Idempotence under the overwrite policy: persisting twice to one name
/// leaves exactly one file there, holding the bytes of the second write.
pub proof fn lemma_overwrite_latest(
    dir: Map<Seq<u8>, Seq<u8>>,
    name: Seq<u8>,
    first: Seq<u8>,
    second: Seq<u8>,
)
    ensures
        dir.insert(name, first).insert(name, second) == dir.insert(name, second),
{
    assert(dir.insert(name, first).insert(name, second) =~= dir.insert(name, second));
}

/// Uploads to distinct names are independent: each name ends up with its
/// own bytes, in whichever order the two renames land.
pub proof fn lemma_independent_uploads(
    dir: Map<Seq<u8>, Seq<u8>>,
    name1: Seq<u8>,
    bytes1: Seq<u8>,
    name2: Seq<u8>,
    bytes2: Seq<u8>,
)
    requires
        name1 != name2,
    ensures
        dir.insert(name1, bytes1).insert(name2, bytes2)[name1] == bytes1,
        dir.insert(name1, bytes1).insert(name2, bytes2)[name2] == bytes2,
        dir.insert(name1, bytes1).insert(name2, bytes2) == dir.insert(name2, bytes2).insert(
            name1,
            bytes1,
        ),
{
    assert(dir.insert(name1, bytes1).insert(name2, bytes2) =~= dir.insert(name2, bytes2).insert(
        name1,
        bytes1,
    ));
}

} // verus!
