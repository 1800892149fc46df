//! The digest engine: a SHA-256 fingerprint of the content bytes, rendered
//! as the concatenation of the decimal text of each digest byte.

use vstd::prelude::*;

verus! {

/// The SHA-256 digest of a byte sequence.
pub uninterp spec fn sha256_of(data: Seq<u8>) -> Seq<u8>;

/// Relies on `ring::digest::digest` with the `SHA256` algorithm: the digest
/// is a pure function of the input bytes, and its output length is 32 bytes
/// (`ring::digest::SHA256_OUTPUT_LEN`).
#[verifier::external_body]
fn sha256(data: &Vec<u8>) -> (r: Vec<u8>)
    ensures
        r@ == sha256_of(data@),
        r@.len() == 32,
{
    ring::digest::digest(&ring::digest::SHA256, data.as_slice()).as_ref().to_vec()
}

/// Decimal text of one byte: one to three ASCII digits, no leading zeros.
pub open spec fn dec_rep(b: u8) -> Seq<u8> {
    if b < 10 {
        seq![(48 + b) as u8]
    } else if b < 100 {
        seq![(48 + b / 10) as u8, (48 + b % 10) as u8]
    } else {
        seq![(48 + b / 100) as u8, (48 + (b / 10) % 10) as u8, (48 + b % 10) as u8]
    }
}

/// Textual rendering of a digest: the decimal text of each byte in order.
pub open spec fn digest_text(d: Seq<u8>) -> Seq<u8>
    decreases d.len(),
{
    if d.len() == 0 {
        Seq::empty()
    } else {
        digest_text(d.drop_last()) + dec_rep(d.last())
    }
}

/// Each byte contributes at least one digit to the rendering.
pub proof fn lemma_digest_text_len(d: Seq<u8>)
    ensures
        digest_text(d).len() >= d.len(),
    decreases d.len(),
{
    if d.len() > 0 {
        lemma_digest_text_len(d.drop_last());
    }
}

/// Renders digest bytes as concatenated decimal text.
pub fn to_decimal_text(d: &Vec<u8>) -> (r: Vec<u8>)
    ensures
        r@ == digest_text(d@),
{
    let mut r: Vec<u8> = Vec::new();
    proof {
        assert(d@.subrange(0, 0) =~= Seq::<u8>::empty());
    }
    let mut i: usize = 0;
    while i < d.len()
        invariant
            i <= d@.len(),
            r@ == digest_text(d@.subrange(0, i as int)),
        decreases d@.len() - i,
    {
        let b = d[i];
        if b >= 100 {
            r.push(48 + b / 100);
            r.push(48 + (b / 10) % 10);
            r.push(48 + b % 10);
        } else if b >= 10 {
            r.push(48 + b / 10);
            r.push(48 + b % 10);
        } else {
            r.push(48 + b);
        }
        proof {
            let t1 = d@.subrange(0, i + 1 as int);
            assert(t1.drop_last() =~= d@.subrange(0, i as int));
            assert(t1.last() == d@[i as int]);
            assert(r@ =~= digest_text(d@.subrange(0, i as int)) + dec_rep(d@[i as int]));
        }
        i += 1;
    }
    proof {
        assert(d@.subrange(0, d@.len() as int) =~= d@);
    }
    r
}

/// The full digest engine: SHA-256, then the decimal rendering.
pub fn content_hash_text(content: &Vec<u8>) -> (r: Vec<u8>)
    ensures
        r@ == digest_text(sha256_of(content@)),
        r@.len() >= 32,
{
    let digest_bytes = sha256(content);
    proof {
        lemma_digest_text_len(digest_bytes@);
    }
    to_decimal_text(&digest_bytes)
}

/// Determinism of the digest engine: equal contents render equally.
pub proof fn lemma_digest_deterministic(b1: Seq<u8>, b2: Seq<u8>)
    requires
        b1 == b2,
    ensures
        sha256_of(b1) == sha256_of(b2),
        digest_text(sha256_of(b1)) == digest_text(sha256_of(b2)),
{
}

} // verus!
