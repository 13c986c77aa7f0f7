//! Properties of dispatching over the site's table, proved once and for
//! all requests: literal routes answer their fixed bodies, typed routes
//! prefer the numeric handler and forward to the raw one, query decoding is
//! order independent, optional parameters never forward, captured download
//! paths cannot escape their root, and dispatch is deterministic.

use vstd::prelude::*;
use vstd::string::*;
use crate::num::{all_digits, dec_val};
use crate::text::views_of;
use crate::request::{Method, Request, qpairs_view};
use crate::route::Route;
use crate::fsmodel::{FileSystem, spec_files, safe_rel_segs, seg_ok, fs_lookup};
use crate::handlers::{
    root_body, greet_body, user_int_body, user_body, user_add_form_body, plain_greeting,
};
use crate::router::{
    Router, spec_dispatch, spec_try_route, lemma_dispatch_skip, q_first_val, q_has_key,
    ok_status, not_found_status,
};
use crate::site::{is_site_router, is_root_route};

verus! {

/// The base cases of the matching and decoding recursions, spelled out so
/// the laws can unfold them under concrete tables.
proof fn lemma_empty_bases(qv: Seq<(Seq<char>, Option<Seq<char>>)>)
    ensures
        crate::router::pat_match(
            Seq::<crate::route::SegPat>::empty(),
            Seq::<Seq<char>>::empty(),
        ),
        crate::router::spec_decode_path(
            Seq::<crate::route::SegPat>::empty(),
            Seq::<Seq<char>>::empty(),
        ) == Some(Seq::<crate::router::PValV>::empty()),
        crate::router::spec_decode_query(Seq::<crate::route::QParam>::empty(), qv)
            == Some(Seq::<crate::router::QValV>::empty()),
{
}

/// A route mounted under one segment declines every request whose path is
/// empty or starts with a segment of another length.
proof fn lemma_try_none_wrong_prefix(rt: Route, req: Request, fs: FileSystem)
    requires
        rt.prefix@.len() == 1,
        views_of(req.path@).len() == 0
            || views_of(req.path@)[0].len() != rt.prefix@[0]@.len(),
    ensures
        spec_try_route(rt, req, fs) is None,
{
    let pathv = views_of(req.path@);
    let prefv = views_of(rt.prefix@);
    assert(prefv.len() == 1);
    assert(prefv[0] == rt.prefix@[0]@);
    if pathv.len() > 0 {
        assert(pathv[0].len() != prefv[0].len());
    }
}

/// The root route declines every request with a non-empty path.
proof fn lemma_try_none_root(rt: Route, req: Request, fs: FileSystem)
    requires
        is_root_route(rt),
        views_of(req.path@).len() != 0,
    ensures
        spec_try_route(rt, req, fs) is None,
{
    let pathv = views_of(req.path@);
    assert(pathv.skip(0) =~= pathv);
}

/// The length of every mount segment of the site's table, so that one
/// differing length refutes a prefix match.
proof fn lemma_site_seg_lens()
    ensures
        "hi"@.len() == 2,
        "download"@.len() == 8,
        "public"@.len() == 6,
        "user"@.len() == 4,
        "query"@.len() == 5,
        "query_optional"@.len() == 14,
        "add"@.len() == 3,
{
    reveal_strlit("hi");
    reveal_strlit("download");
    reveal_strlit("public");
    reveal_strlit("user");
    reveal_strlit("query");
    reveal_strlit("query_optional");
    reveal_strlit("add");
}

/// The site's routes mounted away from `/user` all decline a request for
/// `/user/...`, as do those mounted away from `/query`, and so on: every
/// route of the table except those under the request's own first segment.
proof fn lemma_site_skip_other_mounts(r: Router, req: Request, fs: FileSystem)
    requires
        is_site_router(r),
        views_of(req.path@).len() >= 1,
    ensures
        views_of(req.path@)[0].len() == 4 ==> spec_try_route(r.routes@[0], req, fs) is None
            && spec_try_route(r.routes@[2], req, fs) is None
            && spec_try_route(r.routes@[3], req, fs) is None
            && spec_try_route(r.routes@[4], req, fs) is None
            && spec_try_route(r.routes@[5], req, fs) is None
            && spec_try_route(r.routes@[6], req, fs) is None,
        views_of(req.path@)[0].len() == 5 ==> spec_try_route(r.routes@[0], req, fs) is None
            && spec_try_route(r.routes@[1], req, fs) is None,
        views_of(req.path@)[0].len() == 14 ==> spec_try_route(r.routes@[0], req, fs) is None
            && spec_try_route(r.routes@[1], req, fs) is None
            && spec_try_route(r.routes@[2], req, fs) is None,
        views_of(req.path@)[0].len() == 8 ==> spec_try_route(r.routes@[0], req, fs) is None
            && spec_try_route(r.routes@[1], req, fs) is None
            && spec_try_route(r.routes@[2], req, fs) is None
            && spec_try_route(r.routes@[3], req, fs) is None
            && spec_try_route(r.routes@[4], req, fs) is None,
{
    lemma_site_seg_lens();
    lemma_try_none_root(r.routes@[0], req, fs);
    let n = views_of(req.path@)[0].len();
    if n == 4 {
        lemma_try_none_wrong_prefix(r.routes@[2], req, fs);
        lemma_try_none_wrong_prefix(r.routes@[3], req, fs);
        lemma_try_none_wrong_prefix(r.routes@[4], req, fs);
        lemma_try_none_wrong_prefix(r.routes@[5], req, fs);
        lemma_try_none_wrong_prefix(r.routes@[6], req, fs);
    }
    if n == 5 {
        lemma_try_none_wrong_prefix(r.routes@[1], req, fs);
    }
    if n == 14 {
        lemma_try_none_wrong_prefix(r.routes@[1], req, fs);
        lemma_try_none_wrong_prefix(r.routes@[2], req, fs);
    }
    if n == 8 {
        lemma_try_none_wrong_prefix(r.routes@[1], req, fs);
        lemma_try_none_wrong_prefix(r.routes@[2], req, fs);
        lemma_try_none_wrong_prefix(r.routes@[3], req, fs);
        lemma_try_none_wrong_prefix(r.routes@[4], req, fs);
    }
}

/// Every request for the site root, whatever its query, is answered with
/// the root's literal body: the one literal route of the table keeps its
/// exact text.
pub proof fn law_root_literal(r: Router, req: Request, fs: FileSystem)
    requires
        is_site_router(r),
        req.method == Method::Get,
        views_of(req.path@).len() == 0,
    ensures
        spec_dispatch(r.routes@, req, fs) == (ok_status(), root_body()),
{
    let rt = r.routes@[0];
    let pathv = views_of(req.path@);
    assert(pathv.skip(0) =~= pathv);
    assert(rt.pattern@.len() == 0);
    assert(crate::router::spec_decode_path(rt.pattern@, pathv)
        == Some(Seq::<crate::router::PValV>::empty()));
    assert(crate::router::spec_decode_query(rt.qspec@, qpairs_view(req.query@))
        == Some(Seq::<crate::router::QValV>::empty()));
    assert(spec_try_route(rt, req, fs) == Some(root_body()));
}

/// For `/user/<id>` with any single segment (other than the literal `add`,
/// whose own route stands in front), an all-digit id that fits answers
/// through the numeric handler, and any other id forwards to the raw
/// handler: numeric ids prefer the numeric route, all others the raw one.
pub proof fn law_user_id_typed(r: Router, req: Request, fs: FileSystem, s: Seq<char>)
    requires
        is_site_router(r),
        req.method == Method::Get,
        views_of(req.path@) == seq!["user"@, s],
        s.len() > 0,
        s != "add"@,
    ensures
        all_digits(s) && dec_val(s) <= u64::MAX ==> spec_dispatch(r.routes@, req, fs)
            == (ok_status(), user_int_body(dec_val(s) as u64)),
        !(all_digits(s) && dec_val(s) <= u64::MAX) ==> spec_dispatch(r.routes@, req, fs)
            == (ok_status(), user_body(s)),
{
    lemma_site_seg_lens();
    let pathv = views_of(req.path@);
    assert(pathv[0] == "user"@);
    lemma_site_skip_other_mounts(r, req, fs);
    lemma_empty_bases(qpairs_view(req.query@));
    // The form route in front matches the prefix but not the literal `add`.
    let ua = r.routes@[1];
    assert(views_of(ua.prefix@) =~= seq!["user"@]);
    assert(pathv.skip(1) =~= seq![s]);
    assert(spec_try_route(ua, req, fs) is None) by {
        match ua.pattern@[0] {
            crate::route::SegPat::Lit(t) => {
                assert(t@ == "add"@);
                assert(!crate::router::pat_match(ua.pattern@, pathv.skip(1)));
            },
            _ => {},
        }
    }
    // The numeric route decides.
    let ui = r.routes@[7];
    assert(views_of(ui.prefix@) =~= seq!["user"@]);
    assert(ui.pattern@.drop_first() =~= Seq::<crate::route::SegPat>::empty());
    assert(seq![s].drop_first() =~= Seq::<Seq<char>>::empty());
    assert(crate::router::pat_match(ui.pattern@, pathv.skip(1)));
    if all_digits(s) && dec_val(s) <= u64::MAX {
        assert(crate::router::spec_decode_path(ui.pattern@, pathv.skip(1))
            == Some(seq![crate::router::PValV::PUV(dec_val(s) as u64)] + Seq::empty()));
        assert(seq![crate::router::PValV::PUV(dec_val(s) as u64)] + Seq::empty()
            =~= seq![crate::router::PValV::PUV(dec_val(s) as u64)]);
        assert(spec_try_route(ui, req, fs) == Some(user_int_body(dec_val(s) as u64)));
        lemma_dispatch_skip(r.routes@, req, fs, 7);
        assert(r.routes@.skip(7)[0] == r.routes@[7]);
    } else {
        assert(spec_try_route(ui, req, fs) is None);
        // The raw route takes what the numeric one forwarded.
        let us = r.routes@[8];
        assert(views_of(us.prefix@) =~= seq!["user"@]);
        assert(us.pattern@.drop_first() =~= Seq::<crate::route::SegPat>::empty());
        assert(crate::router::pat_match(us.pattern@, pathv.skip(1)));
        assert(crate::router::spec_decode_path(us.pattern@, pathv.skip(1))
            == Some(seq![crate::router::PValV::PSV(s)] + Seq::empty()));
        assert(seq![crate::router::PValV::PSV(s)] + Seq::empty()
            =~= seq![crate::router::PValV::PSV(s)]);
        assert(spec_try_route(us, req, fs) == Some(user_body(s)));
        lemma_dispatch_skip(r.routes@, req, fs, 8);
        assert(r.routes@.skip(8)[0] == r.routes@[8]);
    }
}

/// What the query route answers depends on the query string only through
/// two order-free lookups: the presence of the `nonsense` token and the
/// first value of `name`. Two arrangements of the same pairs — `?nonsense&
/// name=me` and `?name=me&nonsense` alike — get the same greeting.
pub proof fn law_query_order_independent(
    r: Router,
    req1: Request,
    req2: Request,
    fs: FileSystem,
    v: Seq<char>,
)
    requires
        is_site_router(r),
        req1.method == Method::Get,
        req2.method == Method::Get,
        views_of(req1.path@) == seq!["query"@],
        views_of(req2.path@) == seq!["query"@],
        q_has_key(qpairs_view(req1.query@), "nonsense"@),
        q_has_key(qpairs_view(req2.query@), "nonsense"@),
        q_first_val(qpairs_view(req1.query@), "name"@) == Some(Some(v)),
        q_first_val(qpairs_view(req2.query@), "name"@) == Some(Some(v)),
    ensures
        spec_dispatch(r.routes@, req1, fs) == (ok_status(), greet_body(v)),
        spec_dispatch(r.routes@, req1, fs) == spec_dispatch(r.routes@, req2, fs),
{
    lemma_query_answers(r, req1, fs, v);
    lemma_query_answers(r, req2, fs, v);
}

/// The query route's answer for a query holding the token and a name value.
proof fn lemma_query_answers(r: Router, req: Request, fs: FileSystem, v: Seq<char>)
    requires
        is_site_router(r),
        req.method == Method::Get,
        views_of(req.path@) == seq!["query"@],
        q_has_key(qpairs_view(req.query@), "nonsense"@),
        q_first_val(qpairs_view(req.query@), "name"@) == Some(Some(v)),
    ensures
        spec_dispatch(r.routes@, req, fs) == (ok_status(), greet_body(v)),
{
    lemma_site_seg_lens();
    let pathv = views_of(req.path@);
    assert(pathv[0] == "query"@);
    lemma_site_skip_other_mounts(r, req, fs);
    lemma_empty_bases(qpairs_view(req.query@));
    let q = r.routes@[2];
    assert(views_of(q.prefix@) =~= seq!["query"@]);
    assert(pathv.skip(1) =~= Seq::<Seq<char>>::empty());
    assert(crate::router::pat_match(q.pattern@, pathv.skip(1)));
    assert(crate::router::spec_decode_path(q.pattern@, pathv.skip(1))
        == Some(Seq::<crate::router::PValV>::empty()));
    let qv = qpairs_view(req.query@);
    let qs = q.qspec@;
    assert(qs.drop_last().drop_last() =~= Seq::<crate::route::QParam>::empty());
    assert(qs.drop_last().last() == qs[0]);
    assert(crate::router::spec_decode_query(qs.drop_last(), qv)
        == Some(Seq::<crate::router::QValV>::empty()));
    assert(crate::router::spec_decode_query(qs, qv)
        == Some(Seq::<crate::router::QValV>::empty().push(crate::router::QValV::SV(v))));
    assert(Seq::<crate::router::QValV>::empty().push(crate::router::QValV::SV(v))
        =~= seq![crate::router::QValV::SV(v)]);
    assert(spec_try_route(q, req, fs) == Some(greet_body(v)));
    lemma_dispatch_skip(r.routes@, req, fs, 2);
    assert(r.routes@.skip(2)[0] == r.routes@[2]);
}

/// The optional-parameter route never forwards on a missing name: with the
/// token present, a valued `name` pair gets the greeting and anything else
/// — no `name` at all, or a bare one — gets the plain greeting.
pub proof fn law_query_optional_absence(r: Router, req: Request, fs: FileSystem)
    requires
        is_site_router(r),
        req.method == Method::Get,
        views_of(req.path@) == seq!["query_optional"@],
        q_has_key(qpairs_view(req.query@), "nonsense"@),
    ensures
        (match q_first_val(qpairs_view(req.query@), "name"@) {
            Some(Some(v)) => spec_dispatch(r.routes@, req, fs) == (ok_status(), greet_body(v)),
            _ => spec_dispatch(r.routes@, req, fs) == (ok_status(), plain_greeting()),
        }),
{
    lemma_site_seg_lens();
    let pathv = views_of(req.path@);
    assert(pathv[0] == "query_optional"@);
    lemma_site_skip_other_mounts(r, req, fs);
    lemma_empty_bases(qpairs_view(req.query@));
    let q = r.routes@[3];
    assert(views_of(q.prefix@) =~= seq!["query_optional"@]);
    assert(pathv.skip(1) =~= Seq::<Seq<char>>::empty());
    assert(crate::router::pat_match(q.pattern@, pathv.skip(1)));
    assert(crate::router::spec_decode_path(q.pattern@, pathv.skip(1))
        == Some(Seq::<crate::router::PValV>::empty()));
    let qv = qpairs_view(req.query@);
    let qs = q.qspec@;
    assert(qs.drop_last().drop_last() =~= Seq::<crate::route::QParam>::empty());
    assert(qs.drop_last().last() == qs[0]);
    assert(crate::router::spec_decode_query(qs.drop_last(), qv)
        == Some(Seq::<crate::router::QValV>::empty()));
    match q_first_val(qv, "name"@) {
        Some(Some(v)) => {
            assert(Seq::<crate::router::QValV>::empty()
                .push(crate::router::QValV::OSV(Some(v)))
                =~= seq![crate::router::QValV::OSV(Some(v))]);
            assert(spec_try_route(q, req, fs) == Some(greet_body(v)));
        },
        _ => {
            assert(Seq::<crate::router::QValV>::empty()
                .push(crate::router::QValV::OSV(None))
                =~= seq![crate::router::QValV::OSV(None)]);
            assert(spec_try_route(q, req, fs) == Some(plain_greeting()));
        },
    }
    lemma_dispatch_skip(r.routes@, req, fs, 3);
    assert(r.routes@.skip(3)[0] == r.routes@[3]);
}

/// What the file handler serves always lies below its root: a successful
/// probe implies the captured remainder was safe, and the path it looked up
/// is the root followed by harmless segments — never a parent-directory
/// escape.
pub proof fn law_files_stay_under_root(root: Seq<Seq<char>>, p: Seq<Seq<char>>, fs: FileSystem)
    ensures
        spec_files(root, p, fs) is Some ==> safe_rel_segs(p),
        spec_files(root, p, fs) is Some ==> spec_files(root, p, fs)
            == fs_lookup(fs.files@, root + p),
        safe_rel_segs(p) ==> (root + p).len() == root.len() + p.len()
            && (forall|i: int| 0 <= i < root.len() ==> (root + p)[i] == root[i])
            && (forall|i: int| root.len() <= i < (root + p).len()
                ==> seg_ok(#[trigger] (root + p)[i])),
{
}

/// A download request whose captured remainder holds a parent-directory
/// segment is never served: no route of the table answers it.
pub proof fn law_download_traversal_rejected(r: Router, req: Request, fs: FileSystem)
    requires
        is_site_router(r),
        req.method == Method::Get,
        views_of(req.path@).len() >= 2,
        views_of(req.path@)[0] == "download"@,
        exists|i: int| 1 <= i < views_of(req.path@).len()
            && views_of(req.path@)[i] == ".."@,
    ensures
        spec_dispatch(r.routes@, req, fs) == (not_found_status(), Seq::<char>::empty()),
{
    lemma_site_seg_lens();
    let pathv = views_of(req.path@);
    lemma_site_skip_other_mounts(r, req, fs);
    let dl = r.routes@[5];
    assert(views_of(dl.prefix@) =~= seq!["download"@]);
    assert(spec_try_route(dl, req, fs) is None) by {
        let rest = pathv.skip(1);
        let i = choose|i: int| 1 <= i < pathv.len() && pathv[i] == ".."@;
        assert(rest[i - 1] == ".."@);
        assert(!seg_ok(rest[i - 1]));
        assert(!safe_rel_segs(rest));
        match dl.handler {
            crate::route::HandlerId::HFiles(root) => {
                assert(crate::router::spec_decode_path(dl.pattern@, rest)
                    == Some(seq![crate::router::PValV::PRestV(rest)]));
            },
            _ => {},
        }
    }
    lemma_try_none_wrong_prefix(r.routes@[6], req, fs);
    lemma_try_none_wrong_prefix(r.routes@[7], req, fs);
    lemma_try_none_wrong_prefix(r.routes@[8], req, fs);
    lemma_dispatch_skip(r.routes@, req, fs, 9);
    assert(r.routes@.skip(9).len() == 0);
}

/// The form route decodes the nested user object out of the query and
/// echoes both the top-level id and the nested fields.
pub proof fn law_user_add_form(
    r: Router,
    req: Request,
    fs: FileSystem,
    idv: Seq<char>,
    namev: Seq<char>,
    acctv: Seq<char>,
)
    requires
        is_site_router(r),
        req.method == Method::Get,
        views_of(req.path@) == seq!["user"@, "add"@],
        q_first_val(qpairs_view(req.query@), "id"@) == Some(Some(idv)),
        q_first_val(qpairs_view(req.query@), "name"@) == Some(Some(namev)),
        q_first_val(qpairs_view(req.query@), "account"@) == Some(Some(acctv)),
        idv.len() > 0 && all_digits(idv) && dec_val(idv) <= u64::MAX,
        acctv.len() > 0 && all_digits(acctv) && dec_val(acctv) <= u64::MAX,
    ensures
        spec_dispatch(r.routes@, req, fs) == (
            ok_status(),
            user_add_form_body(dec_val(idv) as u64, namev, dec_val(acctv) as u64),
        ),
{
    lemma_site_seg_lens();
    let pathv = views_of(req.path@);
    assert(pathv[0] == "user"@);
    lemma_site_skip_other_mounts(r, req, fs);
    lemma_empty_bases(qpairs_view(req.query@));
    let ua = r.routes@[1];
    assert(views_of(ua.prefix@) =~= seq!["user"@]);
    assert(pathv.skip(1) =~= seq!["add"@]);
    assert(ua.pattern@.drop_first() =~= Seq::<crate::route::SegPat>::empty());
    assert(seq!["add"@].drop_first() =~= Seq::<Seq<char>>::empty());
    match ua.pattern@[0] {
        crate::route::SegPat::Lit(t) => {
            assert(t@ == "add"@);
        },
        _ => {},
    }
    assert("add"@.len() == 3);
    assert(crate::router::pat_match(ua.pattern@, pathv.skip(1)));
    assert(crate::router::spec_decode_path(ua.pattern@, pathv.skip(1))
        == Some(Seq::<crate::router::PValV>::empty()));
    let qv = qpairs_view(req.query@);
    let qs = ua.qspec@;
    assert(qs.drop_last().drop_last() =~= Seq::<crate::route::QParam>::empty());
    assert(qs.drop_last().last() == qs[0]);
    let id = dec_val(idv) as u64;
    let acct = dec_val(acctv) as u64;
    assert(crate::router::spec_decode_query(qs.drop_last(), qv)
        == Some(Seq::<crate::router::QValV>::empty().push(crate::router::QValV::UV(id))));
    assert(crate::router::spec_decode_query(qs, qv)
        == Some(Seq::<crate::router::QValV>::empty().push(crate::router::QValV::UV(id)).push(
            crate::router::QValV::UserV(namev, acct),
        )));
    assert(Seq::<crate::router::QValV>::empty().push(crate::router::QValV::UV(id)).push(
        crate::router::QValV::UserV(namev, acct),
    ) =~= seq![crate::router::QValV::UV(id), crate::router::QValV::UserV(namev, acct)]);
    assert(spec_try_route(ua, req, fs)
        == Some(user_add_form_body(id, namev, acct)));
    lemma_dispatch_skip(r.routes@, req, fs, 1);
    assert(r.routes@.skip(1)[0] == r.routes@[1]);
}

/// Dispatch is a function of the table, the request and the file snapshot
/// alone, and dispatching mutates none of them: two dispatches of the same
/// request give identical responses.
pub proof fn law_dispatch_idempotent(
    r: Router,
    req: Request,
    fs: FileSystem,
    first: (u16, Seq<char>),
    second: (u16, Seq<char>),
)
    requires
        first == spec_dispatch(r.routes@, req, fs),
        second == spec_dispatch(r.routes@, req, fs),
    ensures
        first == second,
{
}

} // verus!
