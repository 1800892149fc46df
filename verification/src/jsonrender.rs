//! Rendering of the response envelope as JSON bytes:
//! `{"msg":"ok","result":[...]}` with one object per field, in order.

use vstd::prelude::*;
use crate::bytesutil::append_bytes;
use crate::upload::{FileObject, FileObjectView, items_view};

verus! {

/// One hexadecimal digit, lower case.
pub open spec fn hex_digit(n: u8) -> u8 {
    if n < 10 {
        (48 + n) as u8
    } else {
        (87 + n) as u8
    }
}

/// The JSON string escape of one byte: quote, backslash and the named
/// control characters get a two-byte escape, the other control bytes a
/// `\u00XX` escape, everything else stands as itself.
pub open spec fn esc_byte(b: u8) -> Seq<u8> {
    if b == 34 {
        seq![92u8, 34u8]
    } else if b == 92 {
        seq![92u8, 92u8]
    } else if b == 8 {
        seq![92u8, 98u8]
    } else if b == 9 {
        seq![92u8, 116u8]
    } else if b == 10 {
        seq![92u8, 110u8]
    } else if b == 12 {
        seq![92u8, 102u8]
    } else if b == 13 {
        seq![92u8, 114u8]
    } else if b < 32 {
        seq![92u8, 117u8, 48u8, 48u8, hex_digit(b / 16), hex_digit(b % 16)]
    } else {
        seq![b]
    }
}

/// The JSON string escape of a byte sequence.
pub open spec fn esc(s: Seq<u8>) -> Seq<u8>
    decreases s.len(),
{
    if s.len() == 0 {
        Seq::empty()
    } else {
        esc(s.drop_last()) + esc_byte(s.last())
    }
}

/// Appends the escape of one byte.
fn push_escaped(out: &mut Vec<u8>, b: u8)
    ensures
        final(out)@ == old(out)@ + esc_byte(b),
{
    let ghost pre = out@;
    if b == 34 {
        out.push(92);
        out.push(34);
    } else if b == 92 {
        out.push(92);
        out.push(92);
    } else if b == 8 {
        out.push(92);
        out.push(98);
    } else if b == 9 {
        out.push(92);
        out.push(116);
    } else if b == 10 {
        out.push(92);
        out.push(110);
    } else if b == 12 {
        out.push(92);
        out.push(102);
    } else if b == 13 {
        out.push(92);
        out.push(114);
    } else if b < 32 {
        out.push(92);
        out.push(117);
        out.push(48);
        out.push(48);
        out.push(48 + b / 16);
        let lo = b % 16;
        if lo < 10 {
            out.push(48 + lo);
        } else {
            out.push(87 + lo);
        }
    } else {
        out.push(b);
    }
    proof {
        assert(out@ =~= pre + esc_byte(b));
    }
}

/// Appends the escape of a whole byte sequence.
fn append_escaped(out: &mut Vec<u8>, s: &Vec<u8>)
    ensures
        final(out)@ == old(out)@ + esc(s@),
{
    proof {
        assert(out@ =~= old(out)@ + esc(s@.subrange(0, 0)));
    }
    let mut i: usize = 0;
    while i < s.len()
        invariant
            i <= s@.len(),
            out@ == old(out)@ + esc(s@.subrange(0, i as int)),
        decreases s@.len() - i,
    {
        push_escaped(out, s[i]);
        proof {
            let t1 = s@.subrange(0, i + 1 as int);
            assert(t1.drop_last() =~= s@.subrange(0, i as int));
            assert(t1.last() == s@[i as int]);
            assert(out@ =~= old(out)@ + esc(s@.subrange(0, i + 1 as int)));
        }
        i += 1;
    }
    proof {
        assert(s@.subrange(0, s@.len() as int) =~= s@);
    }
}

pub open spec fn json_head() -> Seq<u8> {
    seq![123u8, 34u8, 109u8, 115u8, 103u8, 34u8, 58u8, 34u8, 111u8, 107u8, 34u8, 44u8, 34u8,
        114u8, 101u8, 115u8, 117u8, 108u8, 116u8, 34u8, 58u8, 91u8]
}

fn json_head_vec() -> (r: Vec<u8>)
    ensures
        r@ == json_head(),
{
    let mut r: Vec<u8> = Vec::new();
    r.push(123);
    r.push(34);
    r.push(109);
    r.push(115);
    r.push(103);
    r.push(34);
    r.push(58);
    r.push(34);
    r.push(111);
    r.push(107);
    r.push(34);
    r.push(44);
    r.push(34);
    r.push(114);
    r.push(101);
    r.push(115);
    r.push(117);
    r.push(108);
    r.push(116);
    r.push(34);
    r.push(58);
    r.push(91);
    proof {
        assert(r@ =~= json_head());
    }
    r
}

pub open spec fn json_tail() -> Seq<u8> {
    seq![93u8, 125u8]
}

pub open spec fn item_a() -> Seq<u8> {
    seq![123u8, 34u8, 102u8, 105u8, 108u8, 101u8, 110u8, 97u8, 109u8, 101u8, 34u8, 58u8, 34u8]
}

fn item_a_vec() -> (r: Vec<u8>)
    ensures
        r@ == item_a(),
{
    let mut r: Vec<u8> = Vec::new();
    r.push(123);
    r.push(34);
    r.push(102);
    r.push(105);
    r.push(108);
    r.push(101);
    r.push(110);
    r.push(97);
    r.push(109);
    r.push(101);
    r.push(34);
    r.push(58);
    r.push(34);
    proof {
        assert(r@ =~= item_a());
    }
    r
}

pub open spec fn item_b() -> Seq<u8> {
    seq![34u8, 44u8, 34u8, 110u8, 97u8, 109u8, 101u8, 34u8, 58u8, 34u8]
}

fn item_b_vec() -> (r: Vec<u8>)
    ensures
        r@ == item_b(),
{
    let mut r: Vec<u8> = Vec::new();
    r.push(34);
    r.push(44);
    r.push(34);
    r.push(110);
    r.push(97);
    r.push(109);
    r.push(101);
    r.push(34);
    r.push(58);
    r.push(34);
    proof {
        assert(r@ =~= item_b());
    }
    r
}

pub open spec fn item_c() -> Seq<u8> {
    seq![34u8, 44u8, 34u8, 117u8, 114u8, 105u8, 34u8, 58u8, 34u8]
}

fn item_c_vec() -> (r: Vec<u8>)
    ensures
        r@ == item_c(),
{
    let mut r: Vec<u8> = Vec::new();
    r.push(34);
    r.push(44);
    r.push(34);
    r.push(117);
    r.push(114);
    r.push(105);
    r.push(34);
    r.push(58);
    r.push(34);
    proof {
        assert(r@ =~= item_c());
    }
    r
}

pub open spec fn item_d() -> Seq<u8> {
    seq![34u8, 125u8]
}

pub open spec fn comma_sep() -> Seq<u8> {
    seq![44u8]
}

/// One result object: filename, field name and descriptor (or error text).
pub open spec fn render_item(it: FileObjectView) -> Seq<u8> {
    item_a() + esc(it.filename) + item_b() + esc(it.name) + item_c() + esc(it.uri) + item_d()
}

/// The first `n` result objects, comma-separated.
pub open spec fn render_upto(items: Seq<FileObjectView>, n: int) -> Seq<u8>
    decreases n,
{
    if n <= 0 {
        Seq::empty()
    } else {
        render_upto(items, n - 1) + (if n == 1 {
            Seq::<u8>::empty()
        } else {
            comma_sep()
        }) + render_item(items[n - 1])
    }
}

/// The whole response envelope for an ordered run of results.
pub open spec fn render_response_spec(items: Seq<FileObjectView>) -> Seq<u8> {
    json_head() + render_upto(items, items.len() as int) + json_tail()
}

/// Appends one rendered result object.
fn append_item(out: &mut Vec<u8>, it: &FileObject)
    ensures
        final(out)@ == old(out)@ + render_item(it@),
{
    let a = item_a_vec();
    append_bytes(out, &a);
    append_escaped(out, &it.filename);
    let b = item_b_vec();
    append_bytes(out, &b);
    append_escaped(out, &it.name);
    let c = item_c_vec();
    append_bytes(out, &c);
    append_escaped(out, &it.uri);
    let mut d: Vec<u8> = Vec::new();
    d.push(34);
    d.push(125);
    proof {
        assert(d@ =~= item_d());
    }
    append_bytes(out, &d);
    proof {
        assert(out@ =~= old(out)@ + render_item(it@));
    }
}

/// Serializes the response envelope: `{"msg":"ok","result":[...]}` with the
/// results in their arrival order.
pub fn render_response(items: &Vec<FileObject>) -> (r: Vec<u8>)
    ensures
        r@ == render_response_spec(items_view(items@)),
{
    let ghost iv = items_view(items@);
    let mut out = json_head_vec();
    proof {
        assert(out@ =~= json_head() + render_upto(iv, 0));
    }
    let mut i: usize = 0;
    while i < items.len()
        invariant
            i <= items@.len(),
            iv == items_view(items@),
            iv.len() == items@.len(),
            out@ == json_head() + render_upto(iv, i as int),
        decreases items@.len() - i,
    {
        if i > 0 {
            out.push(44);
        }
        append_item(&mut out, &items[i]);
        proof {
            assert(items@[i as int]@ == iv[i as int]);
            assert(out@ =~= json_head() + render_upto(iv, i + 1 as int));
        }
        i += 1;
    }
    let mut tl: Vec<u8> = Vec::new();
    tl.push(93);
    tl.push(125);
    proof {
        assert(tl@ =~= json_tail());
    }
    append_bytes(&mut out, &tl);
    out
}

} // verus!
