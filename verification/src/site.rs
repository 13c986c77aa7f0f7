//! The demonstration site: the concrete route table this crate serves, with
//! a predicate pinning every route of the built table, so that properties of
//! dispatching over it can be stated and proved.

use vstd::prelude::*;
use vstd::string::*;
use crate::request::Method;
use crate::route::{
    SegPat, DynKind, QParam, HandlerId, Route, make_route, conflicts, dyn_count,
};
use crate::router::{Router, insert_pos, lemma_insert_pos_skip};

verus! {

/// `GET /` at rank 0, answered by the root greeting.
pub open spec fn is_root_route(r: Route) -> bool {
    r.method == Method::Get
        && r.prefix@.len() == 0
        && r.pattern@.len() == 0
        && r.qspec@.len() == 0
        && r.rank == 0
        && r.handler is HRoot
}

/// `GET /hi/<name>` at rank 1.
pub open spec fn is_hi_route(r: Route) -> bool {
    r.method == Method::Get
        && r.prefix@.len() == 1 && r.prefix@[0]@ == "hi"@
        && r.pattern@.len() == 1
        && (match r.pattern@[0] {
            SegPat::Dyn(_, k) => k == DynKind::AsString,
            _ => false,
        })
        && r.qspec@.len() == 0
        && r.rank == 1
        && r.handler is HHi
}

/// `GET /download/<file..>` at rank 1, served from the `download` area.
pub open spec fn is_download_route(r: Route) -> bool {
    r.method == Method::Get
        && r.prefix@.len() == 1 && r.prefix@[0]@ == "download"@
        && r.pattern@.len() == 1 && r.pattern@[0] is DynMulti
        && r.qspec@.len() == 0
        && r.rank == 1
        && (match r.handler {
            HandlerId::HFiles(root) => root@.len() == 1 && root@[0]@ == "download"@,
            _ => false,
        })
}

/// `GET /public/<path..>` at rank 1, served from the `static` area.
pub open spec fn is_public_route(r: Route) -> bool {
    r.method == Method::Get
        && r.prefix@.len() == 1 && r.prefix@[0]@ == "public"@
        && r.pattern@.len() == 1 && r.pattern@[0] is DynMulti
        && r.qspec@.len() == 0
        && r.rank == 1
        && (match r.handler {
            HandlerId::HFiles(root) => root@.len() == 1 && root@[0]@ == "static"@,
            _ => false,
        })
}

/// `GET /user/<id>` with a numeric id, at rank 1.
pub open spec fn is_user_int_route(r: Route) -> bool {
    r.method == Method::Get
        && r.prefix@.len() == 1 && r.prefix@[0]@ == "user"@
        && r.pattern@.len() == 1
        && (match r.pattern@[0] {
            SegPat::Dyn(_, k) => k == DynKind::AsUInt,
            _ => false,
        })
        && r.qspec@.len() == 0
        && r.rank == 1
        && r.handler is HUserInt
}

/// `GET /user/<id>` with a raw id, at the explicit rank 2 that resolves the
/// collision with the numeric route.
pub open spec fn is_user_route(r: Route) -> bool {
    r.method == Method::Get
        && r.prefix@.len() == 1 && r.prefix@[0]@ == "user"@
        && r.pattern@.len() == 1
        && (match r.pattern@[0] {
            SegPat::Dyn(_, k) => k == DynKind::AsString,
            _ => false,
        })
        && r.qspec@.len() == 0
        && r.rank == 2
        && r.handler is HUser
}

/// `GET /user/add?<id>&<user..>` at rank 0.
pub open spec fn is_user_add_route(r: Route) -> bool {
    r.method == Method::Get
        && r.prefix@.len() == 1 && r.prefix@[0]@ == "user"@
        && r.pattern@.len() == 1
        && (match r.pattern@[0] {
            SegPat::Lit(s) => s@ == "add"@,
            _ => false,
        })
        && r.qspec@.len() == 2
        && (match r.qspec@[0] {
            QParam::ReqUInt(k) => k@ == "id"@,
            _ => false,
        })
        && r.qspec@[1] is UserFormRest
        && r.rank == 0
        && r.handler is HUserAddForm
}

/// `GET /query/?nonsense&<name>` at rank 0.
pub open spec fn is_query_route(r: Route) -> bool {
    r.method == Method::Get
        && r.prefix@.len() == 1 && r.prefix@[0]@ == "query"@
        && r.pattern@.len() == 0
        && r.qspec@.len() == 2
        && (match r.qspec@[0] {
            QParam::Ignored(k) => k@ == "nonsense"@,
            _ => false,
        })
        && (match r.qspec@[1] {
            QParam::ReqStr(k) => k@ == "name"@,
            _ => false,
        })
        && r.rank == 0
        && r.handler is HQuery
}

/// `GET /query_optional/?nonsense&<name>` with an optional name, at rank 0.
pub open spec fn is_query_optional_route(r: Route) -> bool {
    r.method == Method::Get
        && r.prefix@.len() == 1 && r.prefix@[0]@ == "query_optional"@
        && r.pattern@.len() == 0
        && r.qspec@.len() == 2
        && (match r.qspec@[0] {
            QParam::Ignored(k) => k@ == "nonsense"@,
            _ => false,
        })
        && (match r.qspec@[1] {
            QParam::OptStr(k) => k@ == "name"@,
            _ => false,
        })
        && r.rank == 0
        && r.handler is HQueryOptional
}

/// The site's table, in rank order, ties in registration order.
pub open spec fn is_site_router(r: Router) -> bool {
    r.routes@.len() == 9
        && is_root_route(r.routes@[0])
        && is_user_add_route(r.routes@[1])
        && is_query_route(r.routes@[2])
        && is_query_optional_route(r.routes@[3])
        && is_hi_route(r.routes@[4])
        && is_download_route(r.routes@[5])
        && is_public_route(r.routes@[6])
        && is_user_int_route(r.routes@[7])
        && is_user_route(r.routes@[8])
}

/// Routes of different ranks are never ambiguous.
proof fn lemma_no_conflict_rank(a: Route, b: Route)
    requires
        a.rank != b.rank,
    ensures
        !conflicts(a, b),
{
}

/// Routes with mount prefixes of different lengths are never ambiguous.
proof fn lemma_no_conflict_prefix_len(a: Route, b: Route)
    requires
        a.prefix@.len() != b.prefix@.len(),
    ensures
        !conflicts(a, b),
{
    if crate::text::views_of(a.prefix@) == crate::text::views_of(b.prefix@) {
        assert(crate::text::views_of(a.prefix@).len() == a.prefix@.len());
        assert(crate::text::views_of(b.prefix@).len() == b.prefix@.len());
    }
}

/// Routes whose first mount segments have different lengths are never
/// ambiguous.
proof fn lemma_no_conflict_first_seg(a: Route, b: Route)
    requires
        a.prefix@.len() >= 1,
        b.prefix@.len() >= 1,
        a.prefix@[0]@.len() != b.prefix@[0]@.len(),
    ensures
        !conflicts(a, b),
{
    if crate::text::views_of(a.prefix@) == crate::text::views_of(b.prefix@) {
        assert(crate::text::views_of(a.prefix@)[0] == a.prefix@[0]@);
        assert(crate::text::views_of(b.prefix@)[0] == b.prefix@[0]@);
    }
}

/// One mount segment.
fn seg1(s: &str) -> (r: Vec<String>)
    ensures
        r@.len() == 1,
        r@[0]@ == s@,
{
    let mut v: Vec<String> = Vec::new();
    v.push(String::from_str(s));
    v
}

/// Builds the site's router. Registration cannot fail on this table: no two
/// routes are ambiguous, and every multi-segment capture is final.
pub fn site_router() -> (r: Router)
    ensures
        r.wf(),
        is_site_router(r),
{
    proof {
        reveal_strlit("hi");
        reveal_strlit("download");
        reveal_strlit("public");
        reveal_strlit("static");
        reveal_strlit("user");
        reveal_strlit("query");
        reveal_strlit("query_optional");
    }
    let mut router = Router::new();

    // GET / — rank 0 by specificity.
    let root = make_route(
        Method::Get,
        Vec::new(),
        Vec::new(),
        Vec::new(),
        HandlerId::HRoot,
        None,
    );
    let ghost t0 = router.routes@;
    let res = router.register(root);
    if res.is_err() {
        return unreached();
    }
    proof {
        assert(insert_pos(t0, 0) == 0);
        assert(router.routes@ =~= seq![root]);
    }

    // GET /hi/<name> — rank 1 by specificity.
    let mut hi_pat: Vec<SegPat> = Vec::new();
    hi_pat.push(SegPat::Dyn(String::from_str("name"), DynKind::AsString));
    let hi = make_route(Method::Get, seg1("hi"), hi_pat, Vec::new(), HandlerId::HHi, None);
    proof {
        assert(hi.pattern@.drop_last() =~= Seq::<SegPat>::empty());
        assert(dyn_count(hi.pattern@) == 1);
    }
    let ghost t1 = router.routes@;
    proof {
        lemma_insert_pos_skip(t1, 1, 1);
        assert(insert_pos(t1, 1) == 1);
        assert forall|j: int| 0 <= j < t1.len() implies !conflicts(#[trigger] t1[j], hi) by {
            lemma_no_conflict_rank(t1[0], hi);
        }
    }
    let res = router.register(hi);
    if res.is_err() {
        return unreached();
    }
    proof {
        assert(router.routes@ =~= seq![root, hi]);
    }

    // GET /download/<file..> — rank 1 by specificity.
    let mut dl_pat: Vec<SegPat> = Vec::new();
    dl_pat.push(SegPat::DynMulti(String::from_str("file")));
    let download = make_route(
        Method::Get,
        seg1("download"),
        dl_pat,
        Vec::new(),
        HandlerId::HFiles(seg1("download")),
        None,
    );
    proof {
        assert(download.pattern@.drop_last() =~= Seq::<SegPat>::empty());
        assert(dyn_count(download.pattern@) == 1);
    }
    let ghost t2 = router.routes@;
    proof {
        lemma_insert_pos_skip(t2, 1, 2);
        assert(insert_pos(t2, 1) == 2);
        assert forall|j: int| 0 <= j < t2.len() implies !conflicts(#[trigger] t2[j], download) by {
            lemma_no_conflict_rank(t2[0], download);
            lemma_no_conflict_first_seg(t2[1], download);
        }
    }
    let res = router.register(download);
    if res.is_err() {
        return unreached();
    }
    proof {
        assert(router.routes@ =~= seq![root, hi, download]);
    }

    // GET /public/<path..> — rank 1 by specificity.
    let mut pub_pat: Vec<SegPat> = Vec::new();
    pub_pat.push(SegPat::DynMulti(String::from_str("path")));
    let public = make_route(
        Method::Get,
        seg1("public"),
        pub_pat,
        Vec::new(),
        HandlerId::HFiles(seg1("static")),
        None,
    );
    proof {
        assert(public.pattern@.drop_last() =~= Seq::<SegPat>::empty());
        assert(dyn_count(public.pattern@) == 1);
    }
    let ghost t3 = router.routes@;
    proof {
        lemma_insert_pos_skip(t3, 1, 3);
        assert(insert_pos(t3, 1) == 3);
        assert forall|j: int| 0 <= j < t3.len() implies !conflicts(#[trigger] t3[j], public) by {
            lemma_no_conflict_rank(t3[0], public);
            lemma_no_conflict_first_seg(t3[1], public);
            lemma_no_conflict_first_seg(t3[2], public);
        }
    }
    let res = router.register(public);
    if res.is_err() {
        return unreached();
    }
    proof {
        assert(router.routes@ =~= seq![root, hi, download, public]);
    }

    // GET /user/<id:uint> — rank 1 by specificity.
    let mut ui_pat: Vec<SegPat> = Vec::new();
    ui_pat.push(SegPat::Dyn(String::from_str("id"), DynKind::AsUInt));
    let user_int = make_route(
        Method::Get,
        seg1("user"),
        ui_pat,
        Vec::new(),
        HandlerId::HUserInt,
        None,
    );
    proof {
        assert(user_int.pattern@.drop_last() =~= Seq::<SegPat>::empty());
        assert(dyn_count(user_int.pattern@) == 1);
    }
    let ghost t4 = router.routes@;
    proof {
        lemma_insert_pos_skip(t4, 1, 4);
        assert(insert_pos(t4, 1) == 4);
        assert forall|j: int| 0 <= j < t4.len() implies !conflicts(#[trigger] t4[j], user_int) by {
            lemma_no_conflict_rank(t4[0], user_int);
            lemma_no_conflict_first_seg(t4[1], user_int);
            lemma_no_conflict_first_seg(t4[2], user_int);
            lemma_no_conflict_first_seg(t4[3], user_int);
        }
    }
    let res = router.register(user_int);
    if res.is_err() {
        return unreached();
    }
    proof {
        assert(router.routes@ =~= seq![root, hi, download, public, user_int]);
    }

    // GET /user/<id:string> — the explicit rank 2 resolves the collision
    // with the numeric route.
    let mut us_pat: Vec<SegPat> = Vec::new();
    us_pat.push(SegPat::Dyn(String::from_str("id"), DynKind::AsString));
    let user = make_route(
        Method::Get,
        seg1("user"),
        us_pat,
        Vec::new(),
        HandlerId::HUser,
        Some(2),
    );
    let ghost t5 = router.routes@;
    proof {
        lemma_insert_pos_skip(t5, 2, 5);
        assert(insert_pos(t5, 2) == 5);
        assert forall|j: int| 0 <= j < t5.len() implies !conflicts(#[trigger] t5[j], user) by {
            lemma_no_conflict_rank(t5[j], user);
        }
    }
    let res = router.register(user);
    if res.is_err() {
        return unreached();
    }
    proof {
        assert(router.routes@ =~= seq![root, hi, download, public, user_int, user]);
    }

    // GET /user/add?<id>&<user..> — rank 0 by specificity.
    let mut ua_pat: Vec<SegPat> = Vec::new();
    ua_pat.push(SegPat::Lit(String::from_str("add")));
    let mut ua_q: Vec<QParam> = Vec::new();
    ua_q.push(QParam::ReqUInt(String::from_str("id")));
    ua_q.push(QParam::UserFormRest);
    let user_add = make_route(
        Method::Get,
        seg1("user"),
        ua_pat,
        ua_q,
        HandlerId::HUserAddForm,
        None,
    );
    proof {
        assert(user_add.pattern@.drop_last() =~= Seq::<SegPat>::empty());
        assert(dyn_count(user_add.pattern@) == 0);
    }
    let ghost t6 = router.routes@;
    proof {
        lemma_insert_pos_skip(t6, 0, 1);
        assert(t6.skip(1)[0] == t6[1]);
        assert(insert_pos(t6, 0) == 1);
        assert forall|j: int| 0 <= j < t6.len() implies !conflicts(#[trigger] t6[j], user_add) by {
            if j == 0 {
                lemma_no_conflict_prefix_len(t6[0], user_add);
            } else {
                lemma_no_conflict_rank(t6[j], user_add);
            }
        }
    }
    let res = router.register(user_add);
    if res.is_err() {
        return unreached();
    }
    proof {
        assert(router.routes@ =~= seq![root, user_add, hi, download, public, user_int, user]);
    }

    // GET /query/?nonsense&<name> — rank 0 by specificity.
    let mut q_q: Vec<QParam> = Vec::new();
    q_q.push(QParam::Ignored(String::from_str("nonsense")));
    q_q.push(QParam::ReqStr(String::from_str("name")));
    let query = make_route(
        Method::Get,
        seg1("query"),
        Vec::new(),
        q_q,
        HandlerId::HQuery,
        None,
    );
    let ghost t7 = router.routes@;
    proof {
        lemma_insert_pos_skip(t7, 0, 2);
        assert(t7.skip(2)[0] == t7[2]);
        assert(insert_pos(t7, 0) == 2);
        assert forall|j: int| 0 <= j < t7.len() implies !conflicts(#[trigger] t7[j], query) by {
            if j == 0 {
                lemma_no_conflict_prefix_len(t7[0], query);
            } else if j == 1 {
                lemma_no_conflict_first_seg(t7[1], query);
            } else {
                lemma_no_conflict_rank(t7[j], query);
            }
        }
    }
    let res = router.register(query);
    if res.is_err() {
        return unreached();
    }
    proof {
        assert(router.routes@
            =~= seq![root, user_add, query, hi, download, public, user_int, user]);
    }

    // GET /query_optional/?nonsense&<name> — rank 0 by specificity.
    let mut qo_q: Vec<QParam> = Vec::new();
    qo_q.push(QParam::Ignored(String::from_str("nonsense")));
    qo_q.push(QParam::OptStr(String::from_str("name")));
    let query_optional = make_route(
        Method::Get,
        seg1("query_optional"),
        Vec::new(),
        qo_q,
        HandlerId::HQueryOptional,
        None,
    );
    let ghost t8 = router.routes@;
    proof {
        lemma_insert_pos_skip(t8, 0, 3);
        assert(t8.skip(3)[0] == t8[3]);
        assert(insert_pos(t8, 0) == 3);
        assert forall|j: int| 0 <= j < t8.len()
            implies !conflicts(#[trigger] t8[j], query_optional) by {
            if j == 0 {
                lemma_no_conflict_prefix_len(t8[0], query_optional);
            } else if j == 1 || j == 2 {
                lemma_no_conflict_first_seg(t8[j], query_optional);
            } else {
                lemma_no_conflict_rank(t8[j], query_optional);
            }
        }
    }
    let res = router.register(query_optional);
    if res.is_err() {
        return unreached();
    }
    proof {
        assert(router.routes@
            =~= seq![root, user_add, query, query_optional, hi, download, public, user_int,
                user]);
    }
    router
}

} // verus!
