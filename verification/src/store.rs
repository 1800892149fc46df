//! The blob store: idempotent persistence keyed by the derived path.
//!
//! The store is modelled as an append-only sequence of `(path, bytes)`
//! entries with first-match lookup; a write to an existing path is a no-op.
//! A deployment mirrors every appended entry onto durable storage.

use vstd::prelude::*;
use crate::bytesutil::{bytes_eq, copy_bytes};

verus! {

/// One stored blob.
pub struct StoreEntry {
    pub path: Vec<u8>,
    pub data: Vec<u8>,
}

/// The in-memory store model.
pub struct BlobStore {
    entries: Vec<StoreEntry>,
}

impl View for BlobStore {
    type V = Seq<(Seq<u8>, Seq<u8>)>;

    closed spec fn view(&self) -> Seq<(Seq<u8>, Seq<u8>)> {
        self.entries@.map_values(|en: StoreEntry| (en.path@, en.data@))
    }
}

/// The bytes stored under `p`, first match wins.
pub open spec fn spec_lookup(s: Seq<(Seq<u8>, Seq<u8>)>, p: Seq<u8>) -> Option<Seq<u8>>
    decreases s.len(),
{
    if s.len() == 0 {
        None
    } else if s[0].0 == p {
        Some(s[0].1)
    } else {
        spec_lookup(s.drop_first(), p)
    }
}

/// Whether some blob is stored under `p`.
pub open spec fn spec_contains(s: Seq<(Seq<u8>, Seq<u8>)>, p: Seq<u8>) -> bool {
    spec_lookup(s, p) is Some
}

/// What persisting does: nothing when the path is already taken, an
/// appended entry otherwise.
pub open spec fn spec_persist(s: Seq<(Seq<u8>, Seq<u8>)>, p: Seq<u8>, b: Seq<u8>) -> Seq<
    (Seq<u8>, Seq<u8>),
> {
    if spec_contains(s, p) {
        s
    } else {
        s.push((p, b))
    }
}

/// Looking up a freshly appended path finds the appended bytes.
pub proof fn lemma_lookup_push_fresh(s: Seq<(Seq<u8>, Seq<u8>)>, p: Seq<u8>, b: Seq<u8>)
    requires
        !spec_contains(s, p),
    ensures
        spec_lookup(s.push((p, b)), p) == Some(b),
    decreases s.len(),
{
    if s.len() == 0 {
        assert(s.push((p, b))[0] == (p, b));
    } else {
        assert(s.push((p, b)).drop_first() =~= s.drop_first().push((p, b)));
        lemma_lookup_push_fresh(s.drop_first(), p, b);
    }
}

/// Appending an entry never disturbs what an already-present path holds.
pub proof fn lemma_lookup_push_keeps(s: Seq<(Seq<u8>, Seq<u8>)>, p: Seq<u8>, x: (Seq<u8>, Seq<u8>))
    requires
        spec_contains(s, p),
    ensures
        spec_lookup(s.push(x), p) == spec_lookup(s, p),
    decreases s.len(),
{
    if s.len() > 0 {
        assert(s.push(x)[0] == s[0]);
        if s[0].0 != p {
            assert(s.push(x).drop_first() =~= s.drop_first().push(x));
            lemma_lookup_push_keeps(s.drop_first(), p, x);
        }
    }
}

/// Persisting never disturbs what an already-present path holds.
pub proof fn lemma_persist_keeps_contains(
    s: Seq<(Seq<u8>, Seq<u8>)>,
    q: Seq<u8>,
    p: Seq<u8>,
    b: Seq<u8>,
)
    requires
        spec_contains(s, q),
    ensures
        spec_contains(spec_persist(s, p, b), q),
        spec_lookup(spec_persist(s, p, b), q) == spec_lookup(s, q),
{
    if !spec_contains(s, p) {
        lemma_lookup_push_keeps(s, q, (p, b));
    }
}

/// After persisting, the path holds a blob.
pub proof fn lemma_persist_contains_new(s: Seq<(Seq<u8>, Seq<u8>)>, p: Seq<u8>, b: Seq<u8>)
    ensures
        spec_contains(spec_persist(s, p, b), p),
{
    if !spec_contains(s, p) {
        lemma_lookup_push_fresh(s, p, b);
    }
}

/// Idempotent storage: persisting the same bytes under the same path a
/// second time changes nothing, and what the path reads back afterwards is
/// what the first write stored.
pub proof fn lemma_persist_idempotent(s: Seq<(Seq<u8>, Seq<u8>)>, p: Seq<u8>, b: Seq<u8>)
    ensures
        spec_persist(spec_persist(s, p, b), p, b) == spec_persist(s, p, b),
        spec_lookup(spec_persist(s, p, b), p) == if spec_contains(s, p) {
            spec_lookup(s, p)
        } else {
            Some(b)
        },
{
    if !spec_contains(s, p) {
        lemma_lookup_push_fresh(s, p, b);
    }
}

impl BlobStore {
    /// An empty store.
    pub fn new() -> (s: BlobStore)
        ensures
            s@ == Seq::<(Seq<u8>, Seq<u8>)>::empty(),
    {
        let s = BlobStore { entries: Vec::new() };
        proof {
            assert(s@ =~= Seq::<(Seq<u8>, Seq<u8>)>::empty());
        }
        s
    }

    /// How many blobs are stored.
    pub fn count(&self) -> (r: usize)
        ensures
            r == self@.len(),
    {
        self.entries.len()
    }

    /// Reads back the bytes stored under `path`.
    pub fn read(&self, path: &Vec<u8>) -> (r: Option<Vec<u8>>)
        ensures
            match r {
                Some(d) => spec_lookup(self@, path@) == Some(d@),
                None => spec_lookup(self@, path@) is None,
            },
    {
        let n = self.entries.len();
        let mut i: usize = 0;
        proof {
            assert(self@.skip(0) =~= self@);
        }
        while i < n
            invariant
                n == self.entries@.len(),
                i <= n,
                self@.len() == n,
                spec_lookup(self@, path@) == spec_lookup(self@.skip(i as int), path@),
            decreases n - i,
        {
            proof {
                assert(self@.skip(i as int)[0] == (self.entries@[i as int].path@,
                self.entries@[i as int].data@));
                assert(self@.skip(i as int).drop_first() =~= self@.skip(i + 1 as int));
            }
            if bytes_eq(&self.entries[i].path, path) {
                return Some(copy_bytes(&self.entries[i].data));
            }
            i += 1;
        }
        proof {
            assert(self@.skip(n as int) =~= Seq::<(Seq<u8>, Seq<u8>)>::empty());
        }
        None
    }

    /// Whether `path` is already taken.
    pub fn contains(&self, path: &Vec<u8>) -> (r: bool)
        ensures
            r == spec_contains(self@, path@),
    {
        match self.read(path) {
            Some(_) => true,
            None => false,
        }
    }

    /// Persists `data` under `path`: a no-op when the path already holds a
    /// blob, an appended entry otherwise.
    pub fn persist(&mut self, path: Vec<u8>, data: Vec<u8>)
        ensures
            final(self)@ == spec_persist(old(self)@, path@, data@),
    {
        if self.contains(&path) {
            return ;
        }
        let ghost before = self@;
        self.entries.push(StoreEntry { path, data });
        proof {
            assert(self@ =~= before.push((path@, data@)));
        }
    }
}

} // verus!
