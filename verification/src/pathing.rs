//! The path deriver: maps a digest rendering and a file extension to the
//! sharded storage path and the public access descriptor.

use vstd::prelude::*;
use crate::bytesutil::{take_range, append_bytes, copy_bytes};

verus! {

/// The two values read once at startup: where blobs are stored, and the
/// domain prefix under which they are reachable.
pub struct Config {
    pub storage_root: Vec<u8>,
    pub access_domain: Vec<u8>,
}

impl Config {
    pub fn new(storage_root: Vec<u8>, access_domain: Vec<u8>) -> (c: Config)
        ensures
            c.storage_root@ == storage_root@,
            c.access_domain@ == access_domain@,
    {
        Config { storage_root, access_domain }
    }
}

/// ASCII lower-casing of one byte.
pub open spec fn lower_byte(b: u8) -> u8 {
    if 65 <= b <= 90 {
        (b + 32) as u8
    } else {
        b
    }
}

/// ASCII lower-casing of a byte sequence.
pub open spec fn lower_text(s: Seq<u8>) -> Seq<u8> {
    s.map_values(|b: u8| lower_byte(b))
}

/// ASCII lower-casing, executable.
pub fn to_lower(s: &Vec<u8>) -> (r: Vec<u8>)
    ensures
        r@ == lower_text(s@),
{
    let mut r: Vec<u8> = Vec::new();
    proof {
        assert(r@ =~= lower_text(s@.subrange(0, 0)));
    }
    let mut i: usize = 0;
    while i < s.len()
        invariant
            i <= s@.len(),
            r@ == lower_text(s@.subrange(0, i as int)),
        decreases s@.len() - i,
    {
        let b = s[i];
        if 65 <= b && b <= 90 {
            r.push(b + 32);
        } else {
            r.push(b);
        }
        proof {
            assert(lower_text(s@.subrange(0, i + 1 as int)) =~= lower_text(
                s@.subrange(0, i as int),
            ).push(lower_byte(s@[i as int])));
        }
        i += 1;
    }
    proof {
        assert(s@.subrange(0, s@.len() as int) =~= s@);
    }
    r
}

/// Index of the last `.` in a byte sequence, if any.
pub open spec fn last_dot(s: Seq<u8>) -> Option<int>
    decreases s.len(),
{
    if s.len() == 0 {
        None
    } else if s[s.len() - 1] == 46 {
        Some(s.len() - 1)
    } else {
        last_dot(s.drop_last())
    }
}

/// The extension of a client-supplied file name: what follows the last dot,
/// provided that dot is neither the leading byte nor the last one.
pub open spec fn ext_of(filename: Seq<u8>) -> Option<Seq<u8>> {
    match last_dot(filename) {
        None => None,
        Some(p) => if p > 0 && p + 1 < filename.len() {
            Some(filename.subrange(p + 1, filename.len() as int))
        } else {
            None
        },
    }
}

/// The extension actually used for addressing: extracted, then lower-cased.
pub open spec fn field_ext(filename: Seq<u8>) -> Option<Seq<u8>> {
    match ext_of(filename) {
        None => None,
        Some(e) => Some(lower_text(e)),
    }
}

/// Extracts the extension of a file name, lower-cased; `None` when the name
/// carries no usable extension.
pub fn extension_of(filename: &Vec<u8>) -> (r: Option<Vec<u8>>)
    ensures
        match r {
            Some(e) => field_ext(filename@) == Some(e@) && e@.len() > 0,
            None => field_ext(filename@) is None,
        },
{
    let n = filename.len();
    proof {
        assert(filename@.subrange(0, n as int) =~= filename@);
    }
    let mut i: usize = n;
    while i > 0
        invariant
            i <= n,
            n == filename@.len(),
            last_dot(filename@) == last_dot(filename@.subrange(0, i as int)),
            forall|j: int| i <= j < n ==> filename@[j] != 46,
        decreases i,
    {
        if filename[i - 1] == 46 {
            // the last dot sits at i - 1
            proof {
                let pre = filename@.subrange(0, i as int);
                assert(pre[pre.len() - 1] == 46);
                assert(last_dot(filename@) == Some(i - 1 as int));
            }
            if i - 1 > 0 && i < n {
                let e = take_range(filename, i, n);
                let el = to_lower(&e);
                proof {
                    assert(e@ == filename@.subrange(i as int, n as int));
                    assert(ext_of(filename@) == Some(e@));
                }
                return Some(el);
            } else {
                return None;
            }
        }
        proof {
            let pre = filename@.subrange(0, i as int);
            assert(pre[pre.len() - 1] != 46);
            assert(pre.drop_last() =~= filename@.subrange(0, i - 1 as int));
        }
        i -= 1;
    }
    proof {
        assert(filename@.subrange(0, 0) =~= Seq::<u8>::empty());
    }
    None
}

pub open spec fn slash() -> Seq<u8> {
    seq![47u8]
}

pub open spec fn dot() -> Seq<u8> {
    seq![46u8]
}

/// The first shard directory: the first two bytes of the digest text.
pub open spec fn shard1(h: Seq<u8>) -> Seq<u8> {
    h.subrange(0, 2)
}

/// The second shard directory: the next two bytes of the digest text.
pub open spec fn shard2(h: Seq<u8>) -> Seq<u8> {
    h.subrange(2, 4)
}

/// The shard-relative part shared by storage path and access descriptor:
/// `<shard1>/<shard2>/<full digest text>.<ext>`.
pub open spec fn sharded_rel(h: Seq<u8>, e: Seq<u8>) -> Seq<u8> {
    shard1(h) + slash() + shard2(h) + slash() + h + dot() + e
}

/// Where the blob is stored: `<root>/<shard1>/<shard2>/<digest>.<ext>`.
pub open spec fn storage_path(root: Seq<u8>, h: Seq<u8>, e: Seq<u8>) -> Seq<u8> {
    root + slash() + sharded_rel(h, e)
}

/// How the blob is reached: `<domain>/<shard1>/<shard2>/<digest>.<ext>`.
pub open spec fn access_uri(domain: Seq<u8>, h: Seq<u8>, e: Seq<u8>) -> Seq<u8> {
    domain + slash() + sharded_rel(h, e)
}

fn slash_vec() -> (r: Vec<u8>)
    ensures
        r@ == slash(),
{
    let mut r: Vec<u8> = Vec::new();
    r.push(47);
    proof {
        assert(r@ =~= slash());
    }
    r
}

fn dot_vec() -> (r: Vec<u8>)
    ensures
        r@ == dot(),
{
    let mut r: Vec<u8> = Vec::new();
    r.push(46);
    proof {
        assert(r@ =~= dot());
    }
    r
}

/// Builds the shard-relative part of the address.
fn build_rel(h: &Vec<u8>, e: &Vec<u8>) -> (r: Vec<u8>)
    requires
        h@.len() >= 4,
    ensures
        r@ == sharded_rel(h@, e@),
{
    let sl = slash_vec();
    let dt = dot_vec();
    let mut r = take_range(h, 0, 2);
    append_bytes(&mut r, &sl);
    let s2 = take_range(h, 2, 4);
    append_bytes(&mut r, &s2);
    append_bytes(&mut r, &sl);
    append_bytes(&mut r, h);
    append_bytes(&mut r, &dt);
    append_bytes(&mut r, e);
    r
}

/// Derives the storage path and the access descriptor for one digest text
/// and one (already lower-cased) extension.
pub fn derive_paths(cfg: &Config, h: &Vec<u8>, e: &Vec<u8>) -> (r: (Vec<u8>, Vec<u8>))
    requires
        h@.len() >= 4,
    ensures
        r.0@ == storage_path(cfg.storage_root@, h@, e@),
        r.1@ == access_uri(cfg.access_domain@, h@, e@),
{
    let sl = slash_vec();
    let rel = build_rel(h, e);
    let mut path = copy_bytes(&cfg.storage_root);
    append_bytes(&mut path, &sl);
    append_bytes(&mut path, &rel);
    let mut uri = copy_bytes(&cfg.access_domain);
    append_bytes(&mut uri, &sl);
    append_bytes(&mut uri, &rel);
    (path, uri)
}

/// Sharding bound: both shard components are exactly the first two and the
/// next two bytes of the digest text, and the file name stem within the
/// derived path is the entire digest text.
pub proof fn lemma_sharding_components(root: Seq<u8>, h: Seq<u8>, e: Seq<u8>)
    requires
        h.len() >= 4,
    ensures
        shard1(h).len() == 2,
        shard2(h).len() == 2,
        shard1(h) == h.subrange(0, 2),
        shard2(h) == h.subrange(2, 4),
        storage_path(root, h, e) == root + slash() + shard1(h) + slash() + shard2(h) + slash() + h
            + dot() + e,
        access_uri(root, h, e) == root + slash() + shard1(h) + slash() + shard2(h) + slash() + h
            + dot() + e,
{
    assert(storage_path(root, h, e) =~= root + slash() + shard1(h) + slash() + shard2(h) + slash()
        + h + dot() + e);
    assert(access_uri(root, h, e) =~= root + slash() + shard1(h) + slash() + shard2(h) + slash()
        + h + dot() + e);
}

/// Address disjointness in the digest: distinct digest texts yield distinct
/// storage paths when root and extension agree.
pub proof fn lemma_paths_differ_by_digest(root: Seq<u8>, h1: Seq<u8>, h2: Seq<u8>, e: Seq<u8>)
    requires
        h1.len() >= 4,
        h2.len() >= 4,
        h1 != h2,
    ensures
        storage_path(root, h1, e) != storage_path(root, h2, e),
{
    let p1 = storage_path(root, h1, e);
    let p2 = storage_path(root, h2, e);
    let a1 = root + slash() + shard1(h1) + slash() + shard2(h1) + slash();
    let a2 = root + slash() + shard1(h2) + slash() + shard2(h2) + slash();
    let t1 = h1 + dot() + e;
    let t2 = h2 + dot() + e;
    assert(p1 =~= a1 + t1);
    assert(p2 =~= a2 + t2);
    assert(a1.len() == root.len() + 7);
    assert(a2.len() == root.len() + 7);
    if p1 == p2 {
        assert(h1.len() == h2.len());
        assert forall|i: int| 0 <= i < h1.len() implies h1[i] == h2[i] by {
            assert((a1 + t1)[a1.len() + i] == t1[i]);
            assert((a2 + t2)[a2.len() + i] == t2[i]);
            assert(t1[i] == h1[i]);
            assert(t2[i] == h2[i]);
        }
        assert(h1 =~= h2);
    }
}

/// Address disjointness in the extension: distinct extensions yield distinct
/// storage paths when root and digest text agree.
pub proof fn lemma_paths_differ_by_ext(root: Seq<u8>, h: Seq<u8>, e1: Seq<u8>, e2: Seq<u8>)
    requires
        h.len() >= 4,
        e1 != e2,
    ensures
        storage_path(root, h, e1) != storage_path(root, h, e2),
{
    let p1 = storage_path(root, h, e1);
    let p2 = storage_path(root, h, e2);
    let a = root + slash() + shard1(h) + slash() + shard2(h) + slash() + h + dot();
    assert(p1 =~= a + e1);
    assert(p2 =~= a + e2);
    if p1 == p2 {
        assert(e1.len() == e2.len());
        assert forall|i: int| 0 <= i < e1.len() implies e1[i] == e2[i] by {
            assert((a + e1)[a.len() + i] == e1[i]);
            assert((a + e2)[a.len() + i] == e2[i]);
        }
        assert(e1 =~= e2);
    }
}

} // verus!
