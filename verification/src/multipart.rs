//! The multipart ingest pipeline: decodes a `multipart/form-data` request
//! body into its fields, and the boundary token out of a content-type line.
//!
//! The accepted shape of a body with boundary `B` is
//! `--B` then, for each field, `\r\n<headers>\r\n\r\n<content>\r\n--B`,
//! and finally `--` after the last `--B`. Every field's headers must carry
//! a `name="..."` and a `filename="..."` parameter; a body that breaks this
//! shape is rejected as a whole.

use vstd::prelude::*;
use crate::bytesutil::{matches_at, find_from, lemma_find_from, find, has_at, take_range,
    append_bytes};

verus! {

/// One decoded field of a multipart request.
pub struct RawField {
    pub name: Vec<u8>,
    pub filename: Vec<u8>,
    pub content: Vec<u8>,
}

/// The mathematical image of a decoded field.
pub struct RawFieldView {
    pub name: Seq<u8>,
    pub filename: Seq<u8>,
    pub content: Seq<u8>,
}

impl View for RawField {
    type V = RawFieldView;

    open spec fn view(&self) -> RawFieldView {
        RawFieldView { name: self.name@, filename: self.filename@, content: self.content@ }
    }
}

/// The views of a sequence of decoded fields.
pub open spec fn fields_view(s: Seq<RawField>) -> Seq<RawFieldView> {
    s.map_values(|f: RawField| f@)
}

pub open spec fn crlf() -> Seq<u8> {
    seq![13u8, 10u8]
}

fn crlf_vec() -> (r: Vec<u8>)
    ensures
        r@ == crlf(),
{
    let mut r: Vec<u8> = Vec::new();
    r.push(13);
    r.push(10);
    proof {
        assert(r@ =~= crlf());
    }
    r
}

pub open spec fn crlf2() -> Seq<u8> {
    seq![13u8, 10u8, 13u8, 10u8]
}

fn crlf2_vec() -> (r: Vec<u8>)
    ensures
        r@ == crlf2(),
{
    let mut r: Vec<u8> = Vec::new();
    r.push(13);
    r.push(10);
    r.push(13);
    r.push(10);
    proof {
        assert(r@ =~= crlf2());
    }
    r
}

pub open spec fn dashdash() -> Seq<u8> {
    seq![45u8, 45u8]
}

pub open spec fn quote_b() -> Seq<u8> {
    seq![34u8]
}

fn quote_b_vec() -> (r: Vec<u8>)
    ensures
        r@ == quote_b(),
{
    let mut r: Vec<u8> = Vec::new();
    r.push(34);
    proof {
        assert(r@ =~= quote_b());
    }
    r
}

pub open spec fn semi() -> Seq<u8> {
    seq![59u8]
}

fn semi_vec() -> (r: Vec<u8>)
    ensures
        r@ == semi(),
{
    let mut r: Vec<u8> = Vec::new();
    r.push(59);
    proof {
        assert(r@ =~= semi());
    }
    r
}

pub open spec fn name_pat() -> Seq<u8> {
    seq![32u8, 110u8, 97u8, 109u8, 101u8, 61u8, 34u8]
}

fn name_pat_vec() -> (r: Vec<u8>)
    ensures
        r@ == name_pat(),
{
    let mut r: Vec<u8> = Vec::new();
    r.push(32);
    r.push(110);
    r.push(97);
    r.push(109);
    r.push(101);
    r.push(61);
    r.push(34);
    proof {
        assert(r@ =~= name_pat());
    }
    r
}

pub open spec fn filename_pat() -> Seq<u8> {
    seq![32u8, 102u8, 105u8, 108u8, 101u8, 110u8, 97u8, 109u8, 101u8, 61u8, 34u8]
}

fn filename_pat_vec() -> (r: Vec<u8>)
    ensures
        r@ == filename_pat(),
{
    let mut r: Vec<u8> = Vec::new();
    r.push(32);
    r.push(102);
    r.push(105);
    r.push(108);
    r.push(101);
    r.push(110);
    r.push(97);
    r.push(109);
    r.push(101);
    r.push(61);
    r.push(34);
    proof {
        assert(r@ =~= filename_pat());
    }
    r
}

pub open spec fn ct_prefix() -> Seq<u8> {
    seq![109u8, 117u8, 108u8, 116u8, 105u8, 112u8, 97u8, 114u8, 116u8, 47u8, 102u8, 111u8, 114u8,
        109u8, 45u8, 100u8, 97u8, 116u8, 97u8]
}

fn ct_prefix_vec() -> (r: Vec<u8>)
    ensures
        r@ == ct_prefix(),
{
    let mut r: Vec<u8> = Vec::new();
    r.push(109);
    r.push(117);
    r.push(108);
    r.push(116);
    r.push(105);
    r.push(112);
    r.push(97);
    r.push(114);
    r.push(116);
    r.push(47);
    r.push(102);
    r.push(111);
    r.push(114);
    r.push(109);
    r.push(45);
    r.push(100);
    r.push(97);
    r.push(116);
    r.push(97);
    proof {
        assert(r@ =~= ct_prefix());
    }
    r
}

pub open spec fn boundary_pat() -> Seq<u8> {
    seq![98u8, 111u8, 117u8, 110u8, 100u8, 97u8, 114u8, 121u8, 61u8]
}

fn boundary_pat_vec() -> (r: Vec<u8>)
    ensures
        r@ == boundary_pat(),
{
    let mut r: Vec<u8> = Vec::new();
    r.push(98);
    r.push(111);
    r.push(117);
    r.push(110);
    r.push(100);
    r.push(97);
    r.push(114);
    r.push(121);
    r.push(61);
    proof {
        assert(r@ =~= boundary_pat());
    }
    r
}

/// The value of a quoted header parameter: the bytes between the first
/// occurrence of `pat` and the next double quote.
pub open spec fn param_value(headers: Seq<u8>, pat: Seq<u8>) -> Option<Seq<u8>> {
    match find_from(headers, pat, 0) {
        None => None,
        Some(p) => match find_from(headers, quote_b(), p + pat.len()) {
            None => None,
            Some(q) => Some(headers.subrange(p + pat.len(), q)),
        },
    }
}

/// One part between two delimiters: headers up to the first blank line,
/// content after it, with both disposition parameters demanded.
pub open spec fn part_of(part: Seq<u8>) -> Option<RawFieldView> {
    match find_from(part, crlf2(), 0) {
        None => None,
        Some(h) => {
            let headers = part.subrange(0, h);
            let content = part.subrange(h + 4, part.len() as int);
            match param_value(headers, name_pat()) {
                None => None,
                Some(nm) => match param_value(headers, filename_pat()) {
                    None => None,
                    Some(fnm) => Some(RawFieldView { name: nm, filename: fnm, content }),
                },
            }
        },
    }
}

/// The fields found after a delimiter `--B`: either the closing `--`, or a
/// CRLF, one part up to the next `\r\n--B`, and the rest.
pub open spec fn fields_of(rest: Seq<u8>, delim: Seq<u8>) -> Option<Seq<RawFieldView>>
    decreases rest.len(),
{
    if rest.len() >= 2 && rest[0] == 45 && rest[1] == 45 {
        Some(Seq::empty())
    } else if rest.len() >= 2 && rest[0] == 13 && rest[1] == 10 {
        let sep = crlf() + delim;
        match find_from(rest, sep, 2) {
            None => None,
            Some(k) => if k < 2 || k + sep.len() > rest.len() {
                None
            } else {
                let part = rest.subrange(2, k);
                let next = rest.subrange(k + sep.len(), rest.len() as int);
                match part_of(part) {
                    None => None,
                    Some(f) => match fields_of(next, delim) {
                        None => None,
                        Some(fs) => Some(seq![f] + fs),
                    },
                }
            },
        }
    } else {
        None
    }
}

/// The fields of a whole body: it must open with `--B`, then parts follow.
pub open spec fn multipart_of(body: Seq<u8>, boundary: Seq<u8>) -> Option<Seq<RawFieldView>> {
    let delim = dashdash() + boundary;
    if matches_at(body, delim, 0) {
        fields_of(body.subrange(delim.len() as int, body.len() as int), delim)
    } else {
        None
    }
}

/// The boundary token of a content-type line: the line must open with
/// `multipart/form-data`, and the token runs from `boundary=` to the next
/// semicolon or the end, shedding one pair of surrounding quotes.
pub open spec fn boundary_of(ct: Seq<u8>) -> Option<Seq<u8>> {
    if !matches_at(ct, ct_prefix(), 0) {
        None
    } else {
        match find_from(ct, boundary_pat(), 0) {
            None => None,
            Some(p) => {
                let start = p + boundary_pat().len();
                let stop = match find_from(ct, semi(), start) {
                    Some(q) => q,
                    None => ct.len() as int,
                };
                let raw = ct.subrange(start, stop);
                let val = if raw.len() >= 2 && raw[0] == 34 && raw[raw.len() - 1] == 34 {
                    raw.subrange(1, raw.len() - 1)
                } else {
                    raw
                };
                if val.len() == 0 {
                    None
                } else {
                    Some(val)
                }
            },
        }
    }
}

/// Extracts a quoted header parameter.
fn get_param(headers: &Vec<u8>, pat: &Vec<u8>) -> (r: Option<Vec<u8>>)
    ensures
        match r {
            Some(v) => param_value(headers@, pat@) == Some(v@),
            None => param_value(headers@, pat@) is None,
        },
{
    let q = quote_b_vec();
    let hn = headers.len();
    match find(headers, pat, 0) {
        None => None,
        Some(p) => {
            proof {
                lemma_find_from(headers@, pat@, 0);
                assert(p + pat@.len() <= hn);
            }
            let start = p + pat.len();
            match find(headers, &q, start) {
                None => None,
                Some(qi) => {
                    proof {
                        lemma_find_from(headers@, q@, start as int);
                    }
                    Some(take_range(headers, start, qi))
                },
            }
        },
    }
}

/// Decodes one part: split at the blank line, read both parameters.
fn parse_part(part: &Vec<u8>) -> (r: Option<RawField>)
    ensures
        match r {
            Some(f) => part_of(part@) == Some(f@),
            None => part_of(part@) is None,
        },
{
    let c4 = crlf2_vec();
    let pn = part.len();
    match find(part, &c4, 0) {
        None => None,
        Some(h) => {
            proof {
                lemma_find_from(part@, c4@, 0);
                assert(h + 4 <= pn);
            }
            let headers = take_range(part, 0, h);
            let content = take_range(part, h + 4, part.len());
            let np = name_pat_vec();
            let fp = filename_pat_vec();
            match get_param(&headers, &np) {
                None => None,
                Some(nm) => match get_param(&headers, &fp) {
                    None => None,
                    Some(fnm) => Some(RawField { name: nm, filename: fnm, content }),
                },
            }
        },
    }
}

/// Decodes the run of parts that follows a delimiter.
fn parse_fields(rest: Vec<u8>, delim: &Vec<u8>) -> (r: Option<Vec<RawField>>)
    ensures
        match r {
            Some(fs) => fields_of(rest@, delim@) == Some(fields_view(fs@)),
            None => fields_of(rest@, delim@) is None,
        },
    decreases rest@.len(),
{
    if rest.len() >= 2 && rest[0] == 45 && rest[1] == 45 {
        let out: Vec<RawField> = Vec::new();
        proof {
            assert(fields_view(out@) =~= Seq::<RawFieldView>::empty());
        }
        return Some(out);
    }
    if !(rest.len() >= 2) {
        return None;
    }
    if !(rest[0] == 13 && rest[1] == 10) {
        return None;
    }
    let mut sep = crlf_vec();
    append_bytes(&mut sep, delim);
    match find(&rest, &sep, 2) {
        None => None,
        Some(k) => {
            proof {
                lemma_find_from(rest@, sep@, 2);
            }
            let part = take_range(&rest, 2, k);
            let next = take_range(&rest, k + sep.len(), rest.len());
            match parse_part(&part) {
                None => None,
                Some(f) => match parse_fields(next, delim) {
                    None => None,
                    Some(fs) => {
                        let ghost fsv = fields_view(fs@);
                        let mut out: Vec<RawField> = Vec::new();
                        let ghost fv = f@;
                        out.push(f);
                        let mut fs = fs;
                        out.append(&mut fs);
                        proof {
                            assert(fields_view(out@) =~= seq![fv] + fsv);
                        }
                        Some(out)
                    },
                },
            }
        },
    }
}

/// Decodes a whole multipart body against its boundary token; `None` is a
/// malformed body, fatal to the request as a whole.
pub fn parse_multipart(body: &Vec<u8>, boundary: &Vec<u8>) -> (r: Option<Vec<RawField>>)
    ensures
        match r {
            Some(fs) => multipart_of(body@, boundary@) == Some(fields_view(fs@)),
            None => multipart_of(body@, boundary@) is None,
        },
{
    let mut delim: Vec<u8> = Vec::new();
    delim.push(45);
    delim.push(45);
    proof {
        assert(delim@ =~= dashdash());
    }
    append_bytes(&mut delim, boundary);
    if delim.len() > body.len() {
        return None;
    }
    if !has_at(body, &delim, 0) {
        return None;
    }
    let rest = take_range(body, delim.len(), body.len());
    parse_fields(rest, &delim)
}

/// Reads the boundary token out of a content-type line; `None` rejects the
/// request before anything is read or stored.
pub fn parse_boundary(ct: &Vec<u8>) -> (r: Option<Vec<u8>>)
    ensures
        match r {
            Some(b) => boundary_of(ct@) == Some(b@) && b@.len() > 0,
            None => boundary_of(ct@) is None,
        },
{
    let prefix = ct_prefix_vec();
    if prefix.len() > ct.len() {
        return None;
    }
    if !has_at(ct, &prefix, 0) {
        return None;
    }
    let bp = boundary_pat_vec();
    match find(ct, &bp, 0) {
        None => None,
        Some(p) => {
            proof {
                lemma_find_from(ct@, bp@, 0);
            }
            let start = p + bp.len();
            let sm = semi_vec();
            let stop = match find(ct, &sm, start) {
                Some(q) => {
                    proof {
                        lemma_find_from(ct@, sm@, start as int);
                    }
                    q
                },
                None => ct.len(),
            };
            let raw = take_range(ct, start, stop);
            let val = if raw.len() >= 2 && raw[0] == 34 && raw[raw.len() - 1] == 34 {
                take_range(&raw, 1, raw.len() - 1)
            } else {
                raw
            };
            if val.len() == 0 {
                None
            } else {
                Some(val)
            }
        },
    }
}

} // verus!
