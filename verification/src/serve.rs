//! The request orchestrator: one request in, one response and a store
//! delta out. Request-level gates reject before any storage side effect;
//! field-level failures are recorded per field and never abort a request.

use vstd::prelude::*;
use crate::bytesutil::{bytes_eq, copy_bytes};
use crate::digesting::{digest_text, sha256_of};
use crate::pathing::{Config, field_ext, storage_path, access_uri};
use crate::store::{BlobStore, spec_persist, spec_contains, lemma_persist_keeps_contains,
    lemma_persist_contains_new};
use crate::multipart::{RawFieldView, fields_view, boundary_of, multipart_of, parse_boundary,
    parse_multipart};
use crate::upload::{FileObject, FileObjectView, items_view};
use crate::jsonrender::{render_response_spec, render_response};

verus! {

/// The plain diagnostic for a request without a usable multipart boundary.
pub open spec fn unsupported_text() -> Seq<u8> {
    seq![85u8, 110u8, 115u8, 117u8, 112u8, 112u8, 111u8, 114u8, 116u8, 101u8, 100u8, 32u8, 99u8, 111u8, 110u8, 116u8, 101u8, 110u8, 116u8, 32u8, 116u8, 121u8, 112u8, 101u8, 44u8, 32u8, 109u8, 117u8, 108u8, 116u8, 105u8, 112u8, 97u8, 114u8, 116u8, 47u8, 102u8, 111u8, 114u8, 109u8, 45u8, 100u8, 97u8, 116u8, 97u8, 32u8, 115u8, 117u8, 112u8, 112u8, 111u8, 114u8, 116u8, 115u8, 32u8, 111u8, 110u8, 108u8, 121u8, 33u8]
}

pub fn unsupported_text_vec() -> (r: Vec<u8>)
    ensures
        r@ == unsupported_text(),
{
    let mut r: Vec<u8> = Vec::new();
    r.push(85);
    r.push(110);
    r.push(115);
    r.push(117);
    r.push(112);
    r.push(112);
    r.push(111);
    r.push(114);
    r.push(116);
    r.push(101);
    r.push(100);
    r.push(32);
    r.push(99);
    r.push(111);
    r.push(110);
    r.push(116);
    r.push(101);
    r.push(110);
    r.push(116);
    r.push(32);
    r.push(116);
    r.push(121);
    r.push(112);
    r.push(101);
    r.push(44);
    r.push(32);
    r.push(109);
    r.push(117);
    r.push(108);
    r.push(116);
    r.push(105);
    r.push(112);
    r.push(97);
    r.push(114);
    r.push(116);
    r.push(47);
    r.push(102);
    r.push(111);
    r.push(114);
    r.push(109);
    r.push(45);
    r.push(100);
    r.push(97);
    r.push(116);
    r.push(97);
    r.push(32);
    r.push(115);
    r.push(117);
    r.push(112);
    r.push(112);
    r.push(111);
    r.push(114);
    r.push(116);
    r.push(115);
    r.push(32);
    r.push(111);
    r.push(110);
    r.push(108);
    r.push(121);
    r.push(33);
    proof {
        assert(r@ =~= unsupported_text());
    }
    r
}

/// The plain diagnostic for a body that breaks the multipart shape.
pub open spec fn malformed_text() -> Seq<u8> {
    seq![77u8, 97u8, 108u8, 102u8, 111u8, 114u8, 109u8, 101u8, 100u8, 32u8, 109u8, 117u8, 108u8, 116u8, 105u8, 112u8, 97u8, 114u8, 116u8, 32u8, 98u8, 111u8, 100u8, 121u8, 33u8]
}

pub fn malformed_text_vec() -> (r: Vec<u8>)
    ensures
        r@ == malformed_text(),
{
    let mut r: Vec<u8> = Vec::new();
    r.push(77);
    r.push(97);
    r.push(108);
    r.push(102);
    r.push(111);
    r.push(114);
    r.push(109);
    r.push(101);
    r.push(100);
    r.push(32);
    r.push(109);
    r.push(117);
    r.push(108);
    r.push(116);
    r.push(105);
    r.push(112);
    r.push(97);
    r.push(114);
    r.push(116);
    r.push(32);
    r.push(98);
    r.push(111);
    r.push(100);
    r.push(121);
    r.push(33);
    proof {
        assert(r@ =~= malformed_text());
    }
    r
}

/// The per-field error text recorded in place of an access descriptor.
pub open spec fn missing_ext_text() -> Seq<u8> {
    seq![109u8, 105u8, 115u8, 115u8, 105u8, 110u8, 103u8, 32u8, 102u8, 105u8, 108u8, 101u8, 32u8, 101u8, 120u8, 116u8, 101u8, 110u8, 115u8, 105u8, 111u8, 110u8]
}

pub fn missing_ext_text_vec() -> (r: Vec<u8>)
    ensures
        r@ == missing_ext_text(),
{
    let mut r: Vec<u8> = Vec::new();
    r.push(109);
    r.push(105);
    r.push(115);
    r.push(115);
    r.push(105);
    r.push(110);
    r.push(103);
    r.push(32);
    r.push(102);
    r.push(105);
    r.push(108);
    r.push(101);
    r.push(32);
    r.push(101);
    r.push(120);
    r.push(116);
    r.push(101);
    r.push(110);
    r.push(115);
    r.push(105);
    r.push(111);
    r.push(110);
    proof {
        assert(r@ =~= missing_ext_text());
    }
    r
}

/// The one accepted method.
pub open spec fn post_method() -> Seq<u8> {
    seq![80u8, 79u8, 83u8, 84u8]
}

fn post_method_vec() -> (r: Vec<u8>)
    ensures
        r@ == post_method(),
{
    let mut r: Vec<u8> = Vec::new();
    r.push(80);
    r.push(79);
    r.push(83);
    r.push(84);
    proof {
        assert(r@ =~= post_method());
    }
    r
}

/// The one accepted request target.
pub open spec fn root_target() -> Seq<u8> {
    seq![47u8]
}

fn root_target_vec() -> (r: Vec<u8>)
    ensures
        r@ == root_target(),
{
    let mut r: Vec<u8> = Vec::new();
    r.push(47);
    proof {
        assert(r@ =~= root_target());
    }
    r
}

/// What one field does to the response and to the store: a usable
/// extension digests, derives and persists; a missing one only records the
/// error text. Either way the entry keeps the field's file name and name.
pub open spec fn step_field(
    f: RawFieldView,
    st: Seq<(Seq<u8>, Seq<u8>)>,
    root: Seq<u8>,
    domain: Seq<u8>,
) -> (FileObjectView, Seq<(Seq<u8>, Seq<u8>)>) {
    match field_ext(f.filename) {
        None => (
            FileObjectView { filename: f.filename, name: f.name, uri: missing_ext_text() },
            st,
        ),
        Some(e) => {
            let h = digest_text(sha256_of(f.content));
            (
                FileObjectView { filename: f.filename, name: f.name, uri: access_uri(
                    domain,
                    h,
                    e,
                ) },
                spec_persist(st, storage_path(root, h, e), f.content),
            )
        },
    }
}

/// The fields of one request, processed strictly in arrival order, each
/// against the store the previous one left behind.
pub open spec fn run_fields(
    fs: Seq<RawFieldView>,
    st: Seq<(Seq<u8>, Seq<u8>)>,
    root: Seq<u8>,
    domain: Seq<u8>,
) -> (Seq<FileObjectView>, Seq<(Seq<u8>, Seq<u8>)>)
    decreases fs.len(),
{
    if fs.len() == 0 {
        (Seq::empty(), st)
    } else {
        let sf = step_field(fs[0], st, root, domain);
        let rest = run_fields(fs.drop_first(), sf.1, root, domain);
        (seq![sf.0] + rest.0, rest.1)
    }
}

/// Order preservation and partial-failure isolation: the results line up
/// one-to-one with the fields in arrival order, each carries its field's
/// file name and name, and each one's descriptor-or-error depends on its
/// own field alone — a failed field never disturbs its siblings.
pub proof fn lemma_results_track_fields(
    fs: Seq<RawFieldView>,
    st: Seq<(Seq<u8>, Seq<u8>)>,
    root: Seq<u8>,
    domain: Seq<u8>,
)
    ensures
        run_fields(fs, st, root, domain).0.len() == fs.len(),
        forall|i: int|
            0 <= i < fs.len() ==> {
                let it = #[trigger] run_fields(fs, st, root, domain).0[i];
                it.filename == fs[i].filename && it.name == fs[i].name && it.uri == (match
                    field_ext(fs[i].filename) {
                    None => missing_ext_text(),
                    Some(e) => access_uri(domain, digest_text(sha256_of(fs[i].content)), e),
                })
            },
    decreases fs.len(),
{
    if fs.len() > 0 {
        let sf = step_field(fs[0], st, root, domain);
        lemma_results_track_fields(fs.drop_first(), sf.1, root, domain);
        assert forall|i: int| 0 <= i < fs.len() implies {
            let it = #[trigger] run_fields(fs, st, root, domain).0[i];
            it.filename == fs[i].filename && it.name == fs[i].name && it.uri == (match field_ext(
                fs[i].filename,
            ) {
                None => missing_ext_text(),
                Some(e) => access_uri(domain, digest_text(sha256_of(fs[i].content)), e),
            })
        } by {
            let whole = run_fields(fs, st, root, domain);
            let rest = run_fields(fs.drop_first(), sf.1, root, domain);
            if i == 0 {
                assert(whole.0[0] == sf.0);
            } else {
                assert(whole.0[i] == rest.0[i - 1]);
                assert(fs.drop_first()[i - 1] == fs[i]);
            }
        }
    }
}

/// The boundary token of an optional content-type line.
pub open spec fn spec_ct_boundary(ct: Option<Seq<u8>>) -> Option<Seq<u8>> {
    match ct {
        None => None,
        Some(c) => boundary_of(c),
    }
}

/// The whole per-request state machine: status, response body, and the
/// store it leaves behind.
pub open spec fn spec_serve(
    method: Seq<u8>,
    target: Seq<u8>,
    ct: Option<Seq<u8>>,
    body: Seq<u8>,
    st0: Seq<(Seq<u8>, Seq<u8>)>,
    root: Seq<u8>,
    domain: Seq<u8>,
) -> (u16, Seq<u8>, Seq<(Seq<u8>, Seq<u8>)>) {
    if !(method == post_method() && target == root_target()) {
        (404u16, Seq::<u8>::empty(), st0)
    } else {
        match spec_ct_boundary(ct) {
            None => (400u16, unsupported_text(), st0),
            Some(b) => match multipart_of(body, b) {
                None => (400u16, malformed_text(), st0),
                Some(fs) => {
                    let run = run_fields(fs, st0, root, domain);
                    (200u16, render_response_spec(run.0), run.1)
                },
            },
        }
    }
}

/// A finished response: the status code and the body bytes.
pub struct HttpReply {
    pub status: u16,
    pub body: Vec<u8>,
}

/// Drives one request end to end: gate the method and target, gate the
/// content type, decode the multipart body, then digest, derive and
/// persist field by field and render the envelope. A request that fails a
/// gate leaves the store untouched.
pub fn handle_request(
    method: &Vec<u8>,
    target: &Vec<u8>,
    content_type: Option<&Vec<u8>>,
    body: &Vec<u8>,
    cfg: &Config,
    st: &mut BlobStore,
) -> (r: HttpReply)
    ensures
        ({
            let ct = match content_type {
                None => None,
                Some(c) => Some(c@),
            };
            let out = spec_serve(
                method@,
                target@,
                ct,
                body@,
                old(st)@,
                cfg.storage_root@,
                cfg.access_domain@,
            );
            r.status == out.0 && r.body@ == out.1 && final(st)@ == out.2
        }),
{
    let mut pm: Vec<u8> = Vec::new();
    pm.push(80);
    pm.push(79);
    pm.push(83);
    pm.push(84);
    proof {
        assert(pm@ =~= post_method());
    }
    let mut rt: Vec<u8> = Vec::new();
    rt.push(47);
    proof {
        assert(rt@ =~= root_target());
    }
    if !(bytes_eq(method, &pm) && bytes_eq(target, &rt)) {
        return HttpReply { status: 404, body: Vec::new() };
    }
    let boundary = match content_type {
        None => None,
        Some(c) => parse_boundary(c),
    };
    let boundary = match boundary {
        None => {
            return HttpReply { status: 400, body: unsupported_text_vec() };
        },
        Some(b) => b,
    };
    let fields = match parse_multipart(body, &boundary) {
        None => {
            return HttpReply { status: 400, body: malformed_text_vec() };
        },
        Some(fs) => fs,
    };
    let ghost st0 = st@;
    let ghost fv = fields_view(fields@);
    let ghost root = cfg.storage_root@;
    let ghost domain = cfg.access_domain@;
    let mut results: Vec<FileObject> = Vec::new();
    proof {
        assert(fv.skip(0) =~= fv);
        assert(items_view(results@) =~= Seq::<FileObjectView>::empty());
        assert(items_view(results@) + run_fields(fv, st@, root, domain).0 =~= run_fields(
            fv,
            st@,
            root,
            domain,
        ).0);
    }
    let mut i: usize = 0;
    while i < fields.len()
        invariant
            i <= fields@.len(),
            fv == fields_view(fields@),
            fv.len() == fields@.len(),
            root == cfg.storage_root@,
            domain == cfg.access_domain@,
            run_fields(fv, st0, root, domain).0 == items_view(results@) + run_fields(
                fv.skip(i as int),
                st@,
                root,
                domain,
            ).0,
            run_fields(fv, st0, root, domain).1 == run_fields(
                fv.skip(i as int),
                st@,
                root,
                domain,
            ).1,
        decreases fields@.len() - i,
    {
        let ghost cur = st@;
        let ghost pre_results = results@;
        let f = &fields[i];
        let mut obj = FileObject::new(copy_bytes(&f.filename), copy_bytes(&f.name), Vec::new());
        match obj.save_file(&f.content, cfg, st) {
            Ok(_) => {},
            Err(_) => {
                obj.uri = missing_ext_text_vec();
            },
        }
        results.push(obj);
        proof {
            let sf = step_field(fv[i as int], cur, root, domain);
            assert(fields@[i as int]@ == fv[i as int]);
            assert(obj@ == sf.0);
            assert(st@ == sf.1);
            assert(fv.skip(i as int)[0] == fv[i as int]);
            assert(fv.skip(i as int).drop_first() =~= fv.skip(i + 1 as int));
            assert(run_fields(fv.skip(i as int), cur, root, domain).0 == seq![sf.0] + run_fields(
                fv.skip(i + 1 as int),
                st@,
                root,
                domain,
            ).0);
            assert(items_view(results@) =~= items_view(pre_results) + seq![obj@]);
            assert(items_view(pre_results) + (seq![sf.0] + run_fields(
                fv.skip(i + 1 as int),
                st@,
                root,
                domain,
            ).0) =~= (items_view(pre_results) + seq![sf.0]) + run_fields(
                fv.skip(i + 1 as int),
                st@,
                root,
                domain,
            ).0);
        }
        i += 1;
    }
    proof {
        assert(fv.skip(fv.len() as int) =~= Seq::<RawFieldView>::empty());
        assert(items_view(results@) + Seq::<FileObjectView>::empty() =~= items_view(results@));
        assert(run_fields(fv, st0, root, domain).0 == items_view(results@));
        assert(run_fields(fv, st0, root, domain).1 == st@);
    }
    let body_out = render_response(&results);
    HttpReply { status: 200, body: body_out }
}

/// Content-type gate: a request without a usable multipart boundary, or
/// off the upload endpoint, is answered without touching the store.
pub proof fn lemma_gates_leave_store(
    method: Seq<u8>,
    target: Seq<u8>,
    ct: Option<Seq<u8>>,
    body: Seq<u8>,
    st0: Seq<(Seq<u8>, Seq<u8>)>,
    root: Seq<u8>,
    domain: Seq<u8>,
)
    requires
        !(method == post_method() && target == root_target()) || spec_ct_boundary(ct) is None
            || multipart_of(body, spec_ct_boundary(ct).unwrap()) is None,
    ensures
        spec_serve(method, target, ct, body, st0, root, domain).2 == st0,
        spec_serve(method, target, ct, body, st0, root, domain).0 != 200,
{
}


/// The storage path a field's content is addressed by, for a field whose
/// file name carries a usable extension.
pub open spec fn field_path(f: RawFieldView, root: Seq<u8>) -> Seq<u8> {
    storage_path(root, digest_text(sha256_of(f.content)), field_ext(f.filename).unwrap())
}

/// A run only grows the store, and afterwards every well-formed field's
/// derived path holds a blob.
pub proof fn lemma_run_fields_covers(
    fs: Seq<RawFieldView>,
    st: Seq<(Seq<u8>, Seq<u8>)>,
    root: Seq<u8>,
    domain: Seq<u8>,
)
    ensures
        forall|p: Seq<u8>|
            spec_contains(st, p) ==> #[trigger] spec_contains(
                run_fields(fs, st, root, domain).1,
                p,
            ),
        forall|i: int|
            0 <= i < fs.len() && field_ext(fs[i].filename) is Some ==> spec_contains(
                run_fields(fs, st, root, domain).1,
                #[trigger] field_path(fs[i], root),
            ),
    decreases fs.len(),
{
    if fs.len() > 0 {
        let sf = step_field(fs[0], st, root, domain);
        lemma_run_fields_covers(fs.drop_first(), sf.1, root, domain);
        assert(run_fields(fs, st, root, domain).1 == run_fields(
            fs.drop_first(),
            sf.1,
            root,
            domain,
        ).1);
        assert forall|p: Seq<u8>| spec_contains(st, p) implies #[trigger] spec_contains(
            run_fields(fs, st, root, domain).1,
            p,
        ) by {
            if field_ext(fs[0].filename) is Some {
                lemma_persist_keeps_contains(st, p, field_path(fs[0], root), fs[0].content);
            }
            assert(spec_contains(sf.1, p));
            assert(spec_contains(run_fields(fs.drop_first(), sf.1, root, domain).1, p));
        }
        assert forall|i: int|
            0 <= i < fs.len() && field_ext(fs[i].filename) is Some implies spec_contains(
            run_fields(fs, st, root, domain).1,
            #[trigger] field_path(fs[i], root),
        ) by {
            if i == 0 {
                let p0 = field_path(fs[0], root);
                lemma_persist_contains_new(st, p0, fs[0].content);
                assert(spec_contains(sf.1, p0));
                assert(spec_contains(run_fields(fs.drop_first(), sf.1, root, domain).1, p0));
            } else {
                assert(fs.drop_first()[i - 1] == fs[i]);
                assert(spec_contains(
                    run_fields(fs.drop_first(), sf.1, root, domain).1,
                    field_path(fs.drop_first()[i - 1], root),
                ));
            }
        }
    }
}

/// Running fields whose derived paths are all already stored writes
/// nothing.
pub proof fn lemma_run_fields_on_covered(
    fs: Seq<RawFieldView>,
    st: Seq<(Seq<u8>, Seq<u8>)>,
    root: Seq<u8>,
    domain: Seq<u8>,
)
    requires
        forall|i: int|
            0 <= i < fs.len() && field_ext(fs[i].filename) is Some ==> spec_contains(
                st,
                #[trigger] field_path(fs[i], root),
            ),
    ensures
        run_fields(fs, st, root, domain).1 == st,
    decreases fs.len(),
{
    if fs.len() > 0 {
        let sf = step_field(fs[0], st, root, domain);
        if field_ext(fs[0].filename) is Some {
            assert(spec_contains(st, field_path(fs[0], root)));
            assert(sf.1 == st);
        }
        assert forall|i: int|
            0 <= i < fs.drop_first().len() && field_ext(
                fs.drop_first()[i].filename,
            ) is Some implies spec_contains(st, #[trigger] field_path(
            fs.drop_first()[i],
            root,
        )) by {
            assert(fs.drop_first()[i] == fs[i + 1]);
        }
        lemma_run_fields_on_covered(fs.drop_first(), st, root, domain);
    }
}

/// Idempotence at request level: running the same fields a second time
/// leaves the store exactly as the first run left it and reports exactly
/// the same results, descriptor for descriptor.
pub proof fn lemma_rerun_is_noop(
    fs: Seq<RawFieldView>,
    st: Seq<(Seq<u8>, Seq<u8>)>,
    root: Seq<u8>,
    domain: Seq<u8>,
)
    ensures
        ({
            let first = run_fields(fs, st, root, domain);
            let second = run_fields(fs, first.1, root, domain);
            second.1 == first.1 && second.0 == first.0
        }),
{
    let first = run_fields(fs, st, root, domain);
    let second = run_fields(fs, first.1, root, domain);
    lemma_run_fields_covers(fs, st, root, domain);
    lemma_run_fields_on_covered(fs, first.1, root, domain);
    lemma_results_track_fields(fs, st, root, domain);
    lemma_results_track_fields(fs, first.1, root, domain);
    assert forall|i: int| 0 <= i < fs.len() implies first.0[i] == second.0[i] by {
        assert(first.0[i].filename == fs[i].filename && second.0[i].filename == fs[i].filename);
        assert(first.0[i].name == fs[i].name && second.0[i].name == fs[i].name);
        assert(first.0[i].uri == second.0[i].uri);
    }
    assert(first.0 =~= second.0);
}


/// Idempotence end to end: serving the same request again, against the
/// store the first service left behind, answers with the same status and
/// the same body — descriptor for descriptor — and changes nothing.
pub proof fn lemma_serve_rerun(
    method: Seq<u8>,
    target: Seq<u8>,
    ct: Option<Seq<u8>>,
    body: Seq<u8>,
    st0: Seq<(Seq<u8>, Seq<u8>)>,
    root: Seq<u8>,
    domain: Seq<u8>,
)
    ensures
        ({
            let first = spec_serve(method, target, ct, body, st0, root, domain);
            let second = spec_serve(method, target, ct, body, first.2, root, domain);
            second.0 == first.0 && second.1 == first.1 && second.2 == first.2
        }),
{
    if method == post_method() && target == root_target() {
        match spec_ct_boundary(ct) {
            None => {},
            Some(b) => match multipart_of(body, b) {
                None => {},
                Some(fs) => {
                    lemma_rerun_is_noop(fs, st0, root, domain);
                },
            },
        }
    }
}

} // verus!

