//! The router: an immutable, rank-ordered table of routes, registration
//! with ambiguity checking, and per-request dispatch — filter by method and
//! mount prefix, match the path pattern, decode typed path and query
//! parameters (forwarding to the next candidate on a decode failure), invoke
//! the handler, and fall back to a not-found response when every candidate
//! declines.

use vstd::prelude::*;
use vstd::string::*;
use crate::num::{all_digits, dec_val, parse_u64};
use crate::text::{views_of, opt_view};
use crate::request::{QPair, Request, qpairs_view};
use crate::route::{
    SegPat, DynKind, QParam, UserForm, HandlerId, Route,
    route_wf, conflicts, routes_conflict, str_eq,
};
use crate::fsmodel::{FileSystem, spec_files};
use crate::handlers;

verus! {

/// A decoded path capture.
pub enum PVal {
    PStr(String),
    PUInt(u64),
    PRest(Vec<String>),
}

/// The sequence-level reading of a decoded path capture.
pub enum PValV {
    PSV(Seq<char>),
    PUV(u64),
    PRestV(Seq<Seq<char>>),
}

pub open spec fn pval_view(v: PVal) -> PValV {
    match v {
        PVal::PStr(s) => PValV::PSV(s@),
        PVal::PUInt(n) => PValV::PUV(n),
        PVal::PRest(p) => PValV::PRestV(views_of(p@)),
    }
}

pub open spec fn pvals_view(vs: Seq<PVal>) -> Seq<PValV> {
    vs.map_values(|v: PVal| pval_view(v))
}

/// A decoded query parameter.
pub enum QVal {
    VStr(String),
    VOptStr(Option<String>),
    VUInt(u64),
    VUser(UserForm),
}

/// The sequence-level reading of a decoded query parameter.
pub enum QValV {
    SV(Seq<char>),
    OSV(Option<Seq<char>>),
    UV(u64),
    UserV(Seq<char>, u64),
}

pub open spec fn qval_view(v: QVal) -> QValV {
    match v {
        QVal::VStr(s) => QValV::SV(s@),
        QVal::VOptStr(o) => QValV::OSV(opt_view(o)),
        QVal::VUInt(n) => QValV::UV(n),
        QVal::VUser(u) => QValV::UserV(u.name@, u.account),
    }
}

pub open spec fn qvals_view(vs: Seq<QVal>) -> Seq<QValV> {
    vs.map_values(|v: QVal| qval_view(v))
}

/// What a route hands back to the transport.
pub struct Response {
    pub status: u16,
    pub body: String,
}

/// Whether `p` is an elementwise prefix of `q`.
pub open spec fn is_seq_prefix(p: Seq<Seq<char>>, q: Seq<Seq<char>>) -> bool {
    p.len() <= q.len() && forall|i: int| 0 <= i < p.len() ==> p[i] == q[i]
}

/// Whether a pattern matches a list of path segments: literals by equal
/// text, a dynamic element by any single non-empty segment, a trailing
/// multi-segment element by one or more remaining segments.
pub open spec fn pat_match(pats: Seq<SegPat>, segs: Seq<Seq<char>>) -> bool
    decreases pats.len(),
{
    if pats.len() == 0 {
        segs.len() == 0
    } else {
        match pats[0] {
            SegPat::Lit(s) => segs.len() > 0 && segs[0] == s@
                && pat_match(pats.drop_first(), segs.drop_first()),
            SegPat::Dyn(_, _) => segs.len() > 0 && segs[0].len() > 0
                && pat_match(pats.drop_first(), segs.drop_first()),
            SegPat::DynMulti(_) => pats.len() == 1 && segs.len() >= 1,
        }
    }
}

/// The typed path captures of a matching pattern, or `None` when a typed
/// segment does not decode, which forwards the request.
pub open spec fn spec_decode_path(pats: Seq<SegPat>, segs: Seq<Seq<char>>)
    -> Option<Seq<PValV>>
    decreases pats.len(),
{
    if pats.len() == 0 {
        Some(Seq::empty())
    } else {
        match pats[0] {
            SegPat::Lit(_) => spec_decode_path(pats.drop_first(), segs.drop_first()),
            SegPat::Dyn(_, DynKind::AsString) => match spec_decode_path(
                pats.drop_first(),
                segs.drop_first(),
            ) {
                None => None,
                Some(vs) => Some(seq![PValV::PSV(segs[0])] + vs),
            },
            SegPat::Dyn(_, DynKind::AsUInt) => if all_digits(segs[0])
                && dec_val(segs[0]) <= u64::MAX {
                match spec_decode_path(pats.drop_first(), segs.drop_first()) {
                    None => None,
                    Some(vs) => Some(seq![PValV::PUV(dec_val(segs[0]) as u64)] + vs),
                }
            } else {
                None
            },
            SegPat::DynMulti(_) => Some(seq![PValV::PRestV(segs)]),
        }
    }
}

/// The value of the first query pair with the given key, if any: `Some(None)`
/// for a bare token, `Some(Some(v))` for `key=v`.
pub open spec fn q_first_val(q: Seq<(Seq<char>, Option<Seq<char>>)>, k: Seq<char>)
    -> Option<Option<Seq<char>>>
    decreases q.len(),
{
    if q.len() == 0 {
        None
    } else if q[0].0 == k {
        Some(q[0].1)
    } else {
        q_first_val(q.drop_first(), k)
    }
}

/// Whether the key appears in the query, with or without a value.
pub open spec fn q_has_key(q: Seq<(Seq<char>, Option<Seq<char>>)>, k: Seq<char>) -> bool {
    q_first_val(q, k) is Some
}

proof fn lemma_q_first_val_skip(q: Seq<(Seq<char>, Option<Seq<char>>)>, k: Seq<char>, i: int)
    requires
        0 <= i <= q.len(),
        forall|j: int| 0 <= j < i ==> (#[trigger] q[j]).0 != k,
    ensures
        q_first_val(q, k) == q_first_val(q.skip(i), k),
    decreases i,
{
    if i > 0 {
        assert(q.drop_first().skip(i - 1) =~= q.skip(i));
        lemma_q_first_val_skip(q.drop_first(), k, i - 1);
    } else {
        assert(q.skip(0) =~= q);
    }
}

/// The decoded values of a query specification against a query, in
/// specification order; `None` when a required or ignored entry is missing
/// or a typed entry does not decode, which forwards the request. Undeclared
/// keys are tolerated. An ignored key must be present, in any position, but
/// contributes no value. An optional entry decodes to an absent value
/// rather than forwarding when its key is missing or bare.
pub open spec fn spec_decode_query(
    qspec: Seq<QParam>,
    q: Seq<(Seq<char>, Option<Seq<char>>)>,
) -> Option<Seq<QValV>>
    decreases qspec.len(),
{
    if qspec.len() == 0 {
        Some(Seq::empty())
    } else {
        match spec_decode_query(qspec.drop_last(), q) {
            None => None,
            Some(vals) => match qspec.last() {
                QParam::Ignored(k) => if q_has_key(q, k@) {
                    Some(vals)
                } else {
                    None
                },
                QParam::ReqStr(k) => match q_first_val(q, k@) {
                    Some(Some(v)) => Some(vals.push(QValV::SV(v))),
                    _ => None,
                },
                QParam::ReqUInt(k) => match q_first_val(q, k@) {
                    Some(Some(v)) => if v.len() > 0 && all_digits(v) && dec_val(v) <= u64::MAX {
                        Some(vals.push(QValV::UV(dec_val(v) as u64)))
                    } else {
                        None
                    },
                    _ => None,
                },
                QParam::OptStr(k) => match q_first_val(q, k@) {
                    Some(Some(v)) => Some(vals.push(QValV::OSV(Some(v)))),
                    _ => Some(vals.push(QValV::OSV(None))),
                },
                QParam::UserFormRest => match (
                    q_first_val(q, "name"@),
                    q_first_val(q, "account"@),
                ) {
                    (Some(Some(nv)), Some(Some(av))) => if av.len() > 0 && all_digits(av)
                        && dec_val(av) <= u64::MAX {
                        Some(vals.push(QValV::UserV(nv, dec_val(av) as u64)))
                    } else {
                        None
                    },
                    _ => None,
                },
            },
        }
    }
}

proof fn lemma_decode_query_none_extends(
    qspec: Seq<QParam>,
    q: Seq<(Seq<char>, Option<Seq<char>>)>,
    i: int,
)
    requires
        0 <= i <= qspec.len(),
        spec_decode_query(qspec.take(i), q) is None,
    ensures
        spec_decode_query(qspec, q) is None,
    decreases qspec.len() - i,
{
    if i == qspec.len() {
        assert(qspec.take(i) =~= qspec);
    } else {
        assert(qspec.take(i + 1).drop_last() =~= qspec.take(i));
        lemma_decode_query_none_extends(qspec, q, i + 1);
    }
}

/// What invoking a handler on decoded captures yields: a body, or nothing
/// when the handler has no content (an absent file), which lets dispatch
/// try the next candidate.
pub open spec fn spec_invoke(
    h: HandlerId,
    pv: Seq<PValV>,
    qv: Seq<QValV>,
    fs: FileSystem,
) -> Option<Seq<char>> {
    match h {
        HandlerId::HRoot => Some(handlers::root_body()),
        HandlerId::HHi => if pv.len() == 1 && qv.len() == 0 {
            match pv[0] {
                PValV::PSV(name) => Some(handlers::greet_body(name)),
                _ => None,
            }
        } else {
            None
        },
        HandlerId::HFiles(root) => if pv.len() == 1 && qv.len() == 0 {
            match pv[0] {
                PValV::PRestV(p) => spec_files(views_of(root@), p, fs),
                _ => None,
            }
        } else {
            None
        },
        HandlerId::HUserInt => if pv.len() == 1 && qv.len() == 0 {
            match pv[0] {
                PValV::PUV(id) => Some(handlers::user_int_body(id)),
                _ => None,
            }
        } else {
            None
        },
        HandlerId::HUser => if pv.len() == 1 && qv.len() == 0 {
            match pv[0] {
                PValV::PSV(id) => Some(handlers::user_body(id)),
                _ => None,
            }
        } else {
            None
        },
        HandlerId::HUserAddForm => if pv.len() == 0 && qv.len() == 2 {
            match (qv[0], qv[1]) {
                (QValV::UV(id), QValV::UserV(name, account)) => Some(
                    handlers::user_add_form_body(id, name, account),
                ),
                _ => None,
            }
        } else {
            None
        },
        HandlerId::HQuery => if pv.len() == 0 && qv.len() == 1 {
            match qv[0] {
                QValV::SV(name) => Some(handlers::greet_body(name)),
                _ => None,
            }
        } else {
            None
        },
        HandlerId::HQueryOptional => if pv.len() == 0 && qv.len() == 1 {
            match qv[0] {
                QValV::OSV(o) => Some(match o {
                    Some(name) => handlers::greet_body(name),
                    None => handlers::plain_greeting(),
                }),
                _ => None,
            }
        } else {
            None
        },
    }
}

/// What one route yields for a request: `None` both when the route does not
/// match and when it forwards or has no content.
pub open spec fn spec_try_route(r: Route, req: Request, fs: FileSystem) -> Option<Seq<char>> {
    let pathv = views_of(req.path@);
    let rest = pathv.skip(r.prefix@.len() as int);
    if req.method == r.method
        && is_seq_prefix(views_of(r.prefix@), pathv)
        && pat_match(r.pattern@, rest) {
        match spec_decode_path(r.pattern@, rest) {
            None => None,
            Some(pv) => match spec_decode_query(r.qspec@, qpairs_view(req.query@)) {
                None => None,
                Some(qv) => spec_invoke(r.handler, pv, qv, fs),
            },
        }
    } else {
        None
    }
}

/// The not-found status.
pub open spec fn not_found_status() -> u16 {
    404
}

/// The success status.
pub open spec fn ok_status() -> u16 {
    200
}

/// The response of dispatching a request over a route table, as a status
/// and body: the first route in table order that yields a body handles the
/// request; when none does, a not-found response with an empty body.
pub open spec fn spec_dispatch(routes: Seq<Route>, req: Request, fs: FileSystem)
    -> (u16, Seq<char>)
    decreases routes.len(),
{
    if routes.len() == 0 {
        (not_found_status(), Seq::empty())
    } else {
        match spec_try_route(routes[0], req, fs) {
            Some(body) => (ok_status(), body),
            None => spec_dispatch(routes.drop_first(), req, fs),
        }
    }
}

/// Earlier routes that all decline leave the outcome to the rest.
pub proof fn lemma_dispatch_skip(routes: Seq<Route>, req: Request, fs: FileSystem, i: int)
    requires
        0 <= i <= routes.len(),
        forall|j: int| 0 <= j < i ==> spec_try_route(#[trigger] routes[j], req, fs) is None,
    ensures
        spec_dispatch(routes, req, fs) == spec_dispatch(routes.skip(i), req, fs),
    decreases i,
{
    if i > 0 {
        assert(routes.drop_first().skip(i - 1) =~= routes.skip(i));
        lemma_dispatch_skip(routes.drop_first(), req, fs, i - 1);
    } else {
        assert(routes.skip(0) =~= routes);
    }
}

/// Decides whether `prefix` is an elementwise prefix of `path`.
fn prefix_matches(prefix: &Vec<String>, path: &Vec<String>) -> (r: bool)
    ensures
        r == is_seq_prefix(views_of(prefix@), views_of(path@)),
{
    if prefix.len() > path.len() {
        return false;
    }
    let mut i: usize = 0;
    while i < prefix.len()
        invariant
            i <= prefix.len() <= path.len(),
            forall|k: int| 0 <= k < i ==> views_of(prefix@)[k] == views_of(path@)[k],
        decreases prefix.len() - i,
    {
        if !str_eq(&prefix[i], &path[i]) {
            assert(views_of(prefix@)[i as int] != views_of(path@)[i as int]);
            return false;
        }
        i = i + 1;
    }
    true
}

/// Decides whether the pattern from `pi` on matches the segments from `si`
/// on.
fn match_at(pats: &Vec<SegPat>, pi: usize, segs: &Vec<String>, si: usize) -> (r: bool)
    requires
        pi <= pats@.len(),
        si <= segs@.len(),
    ensures
        r == pat_match(pats@.skip(pi as int), views_of(segs@).skip(si as int)),
    decreases pats@.len() - pi,
{
    proof {
        if pi < pats@.len() {
            assert(pats@.skip(pi as int)[0] == pats@[pi as int]);
            assert(pats@.skip(pi as int).drop_first() =~= pats@.skip(pi + 1));
        }
        if si < segs@.len() {
            assert(views_of(segs@).skip(si as int)[0] == segs@[si as int]@);
            assert(views_of(segs@).skip(si as int).drop_first()
                =~= views_of(segs@).skip(si + 1));
        }
    }
    if pi == pats.len() {
        return si == segs.len();
    }
    match &pats[pi] {
        SegPat::Lit(s) => {
            if si == segs.len() {
                return false;
            }
            if !str_eq(s, &segs[si]) {
                return false;
            }
            match_at(pats, pi + 1, segs, si + 1)
        },
        SegPat::Dyn(_, _) => {
            if si == segs.len() {
                return false;
            }
            if segs[si].as_str().is_empty() {
                return false;
            }
            match_at(pats, pi + 1, segs, si + 1)
        },
        SegPat::DynMulti(_) => pi + 1 == pats.len() && si < segs.len(),
    }
}

/// Clones the segments from `si` on.
fn tail_of(segs: &Vec<String>, si: usize) -> (r: Vec<String>)
    requires
        si <= segs@.len(),
    ensures
        r@ == segs@.skip(si as int),
{
    let mut out: Vec<String> = Vec::new();
    proof {
        assert(out@ =~= segs@.subrange(si as int, si as int));
    }
    let mut i: usize = si;
    while i < segs.len()
        invariant
            si <= i <= segs@.len(),
            out@ == segs@.subrange(si as int, i as int),
        decreases segs@.len() - i,
    {
        out.push(segs[i].clone());
        proof {
            assert(segs@.subrange(si as int, i as int).push(segs@[i as int])
                =~= segs@.subrange(si as int, i + 1));
        }
        i = i + 1;
    }
    proof {
        assert(segs@.subrange(si as int, segs@.len() as int) =~= segs@.skip(si as int));
    }
    out
}

/// Decodes the captures of a matching pattern from `pi`/`si` on, appending
/// them to `out`; `false` reports a typed segment that did not decode.
fn decode_path_at(
    pats: &Vec<SegPat>,
    pi: usize,
    segs: &Vec<String>,
    si: usize,
    out: &mut Vec<PVal>,
) -> (ok: bool)
    requires
        pi <= pats@.len(),
        si <= segs@.len(),
        pat_match(pats@.skip(pi as int), views_of(segs@).skip(si as int)),
    ensures
        match spec_decode_path(pats@.skip(pi as int), views_of(segs@).skip(si as int)) {
            Some(vs) => ok && pvals_view(final(out)@) == pvals_view(old(out)@) + vs,
            None => !ok,
        },
    decreases pats@.len() - pi,
{
    proof {
        if pi < pats@.len() {
            assert(pats@.skip(pi as int)[0] == pats@[pi as int]);
            assert(pats@.skip(pi as int).drop_first() =~= pats@.skip(pi + 1));
        }
        if si < segs@.len() {
            assert(views_of(segs@).skip(si as int)[0] == segs@[si as int]@);
            assert(views_of(segs@).skip(si as int).drop_first()
                =~= views_of(segs@).skip(si + 1));
        }
    }
    if pi == pats.len() {
        proof {
            assert(pvals_view(out@) =~= pvals_view(out@) + Seq::<PValV>::empty());
        }
        return true;
    }
    match &pats[pi] {
        SegPat::Lit(_) => {
            let n = segs.len();
            proof {
                assert(views_of(segs@).skip(si as int).len() > 0);
                assert(si < n);
            }
            decode_path_at(pats, pi + 1, segs, si + 1, out)
        },
        SegPat::Dyn(_, DynKind::AsString) => {
            let n = segs.len();
            proof {
                assert(views_of(segs@).skip(si as int).len() > 0);
                assert(si < n);
            }
            let ghost before = out@;
            out.push(PVal::PStr(segs[si].clone()));
            proof {
                assert(pvals_view(out@)
                    =~= pvals_view(before).push(PValV::PSV(segs@[si as int]@)));
            }
            let ok = decode_path_at(pats, pi + 1, segs, si + 1, out);
            proof {
                let rest = views_of(segs@).skip(si + 1);
                match spec_decode_path(pats@.skip(pi + 1), rest) {
                    Some(vs) => {
                        assert(pvals_view(before).push(PValV::PSV(segs@[si as int]@)) + vs
                            =~= pvals_view(before)
                                + (seq![PValV::PSV(segs@[si as int]@)] + vs));
                    },
                    None => {},
                }
            }
            ok
        },
        SegPat::Dyn(_, DynKind::AsUInt) => {
            let n = segs.len();
            proof {
                assert(views_of(segs@).skip(si as int).len() > 0);
                assert(si < n);
            }
            match parse_u64(segs[si].as_str()) {
                None => false,
                Some(v) => {
                    let ghost before = out@;
                    out.push(PVal::PUInt(v));
                    proof {
                        assert(pvals_view(out@)
                            =~= pvals_view(before).push(PValV::PUV(v)));
                    }
                    let ok = decode_path_at(pats, pi + 1, segs, si + 1, out);
                    proof {
                        let rest = views_of(segs@).skip(si + 1);
                        match spec_decode_path(pats@.skip(pi + 1), rest) {
                            Some(vs) => {
                                assert(pvals_view(before).push(PValV::PUV(v)) + vs
                                    =~= pvals_view(before) + (seq![PValV::PUV(v)] + vs));
                            },
                            None => {},
                        }
                    }
                    ok
                },
            }
        },
        SegPat::DynMulti(_) => {
            let rest = tail_of(segs, si);
            let ghost before = out@;
            out.push(PVal::PRest(rest));
            proof {
                assert(views_of(rest@) =~= views_of(segs@).skip(si as int));
                assert(pvals_view(out@)
                    =~= pvals_view(before).push(PValV::PRestV(views_of(segs@).skip(si as int))));
                assert(pvals_view(before).push(PValV::PRestV(views_of(segs@).skip(si as int)))
                    =~= pvals_view(before)
                        + seq![PValV::PRestV(views_of(segs@).skip(si as int))]);
            }
            true
        },
    }
}

/// Looks the first pair with the given key up in a query.
fn lookup_query(query: &Vec<QPair>, k: &String) -> (r: Option<Option<String>>)
    ensures
        match r {
            None => q_first_val(qpairs_view(query@), k@) is None,
            Some(None) => q_first_val(qpairs_view(query@), k@) == Some(
                Option::<Seq<char>>::None,
            ),
            Some(Some(v)) => q_first_val(qpairs_view(query@), k@) == Some(Some(v@)),
        },
{
    let ghost qv = qpairs_view(query@);
    let mut i: usize = 0;
    while i < query.len()
        invariant
            i <= query@.len(),
            qv == qpairs_view(query@),
            forall|j: int| 0 <= j < i ==> (#[trigger] qv[j]).0 != k@,
        decreases query@.len() - i,
    {
        proof {
            assert(qv[i as int] == crate::request::qpair_view(query@[i as int]));
        }
        if str_eq(&query[i].key, k) {
            proof {
                lemma_q_first_val_skip(qv, k@, i as int);
                assert(qv.skip(i as int)[0] == qv[i as int]);
            }
            return match &query[i].value {
                None => Some(None),
                Some(v) => Some(Some(v.clone())),
            };
        }
        i = i + 1;
    }
    proof {
        lemma_q_first_val_skip(qv, k@, query@.len() as int);
    }
    None
}

/// Decodes a query specification against a query, or reports a forward.
fn decode_query(qspec: &Vec<QParam>, query: &Vec<QPair>) -> (r: Option<Vec<QVal>>)
    ensures
        match spec_decode_query(qspec@, qpairs_view(query@)) {
            Some(vs) => r matches Some(out) && qvals_view(out@) == vs,
            None => r is None,
        },
{
    let ghost qv = qpairs_view(query@);
    let mut out: Vec<QVal> = Vec::new();
    proof {
        assert(qvals_view(out@) =~= Seq::<QValV>::empty());
        assert(qspec@.take(0) =~= Seq::<QParam>::empty());
    }
    let mut i: usize = 0;
    while i < qspec.len()
        invariant
            i <= qspec@.len(),
            qv == qpairs_view(query@),
            spec_decode_query(qspec@.take(i as int), qv) == Some(qvals_view(out@)),
        decreases qspec@.len() - i,
    {
        proof {
            assert(qspec@.take(i + 1).drop_last() =~= qspec@.take(i as int));
            assert(qspec@.take(i + 1).last() == qspec@[i as int]);
        }
        let ghost fail = spec_decode_query(qspec@.take(i + 1), qv) is None;
        match &qspec[i] {
            QParam::Ignored(k) => {
                match lookup_query(query, k) {
                    Some(_) => {},
                    None => {
                        proof { lemma_decode_query_none_extends(qspec@, qv, i + 1); }
                        return None;
                    },
                }
            },
            QParam::ReqStr(k) => {
                match lookup_query(query, k) {
                    Some(Some(v)) => {
                        out.push(QVal::VStr(v));
                    },
                    _ => {
                        proof { lemma_decode_query_none_extends(qspec@, qv, i + 1); }
                        return None;
                    },
                }
            },
            QParam::ReqUInt(k) => {
                match lookup_query(query, k) {
                    Some(Some(v)) => {
                        match parse_u64(v.as_str()) {
                            Some(n) => {
                                out.push(QVal::VUInt(n));
                            },
                            None => {
                                proof { lemma_decode_query_none_extends(qspec@, qv, i + 1); }
                                return None;
                            },
                        }
                    },
                    _ => {
                        proof { lemma_decode_query_none_extends(qspec@, qv, i + 1); }
                        return None;
                    },
                }
            },
            QParam::OptStr(k) => {
                match lookup_query(query, k) {
                    Some(Some(v)) => {
                        out.push(QVal::VOptStr(Some(v)));
                    },
                    _ => {
                        out.push(QVal::VOptStr(None));
                    },
                }
            },
            QParam::UserFormRest => {
                let name_key = String::from_str("name");
                let account_key = String::from_str("account");
                match (lookup_query(query, &name_key), lookup_query(query, &account_key)) {
                    (Some(Some(nv)), Some(Some(av))) => {
                        match parse_u64(av.as_str()) {
                            Some(acct) => {
                                out.push(QVal::VUser(UserForm { name: nv, account: acct }));
                            },
                            None => {
                                proof { lemma_decode_query_none_extends(qspec@, qv, i + 1); }
                                return None;
                            },
                        }
                    },
                    _ => {
                        proof { lemma_decode_query_none_extends(qspec@, qv, i + 1); }
                        return None;
                    },
                }
            },
        }
        proof {
            assert(qvals_view(out@)
                =~= spec_decode_query(qspec@.take(i + 1), qv).unwrap());
        }
        i = i + 1;
    }
    proof {
        assert(qspec@.take(qspec@.len() as int) =~= qspec@);
    }
    Some(out)
}

/// Invokes a handler on decoded captures.
fn invoke(h: &HandlerId, pv: &Vec<PVal>, qv: &Vec<QVal>, fs: &FileSystem)
    -> (r: Option<String>)
    ensures
        opt_view(r) == spec_invoke(*h, pvals_view(pv@), qvals_view(qv@), *fs),
{
    match h {
        HandlerId::HRoot => Some(handlers::root()),
        HandlerId::HHi => {
            if pv.len() == 1 && qv.len() == 0 {
                match &pv[0] {
                    PVal::PStr(name) => Some(handlers::hi(name)),
                    _ => None,
                }
            } else {
                None
            }
        },
        HandlerId::HFiles(root) => {
            if pv.len() == 1 && qv.len() == 0 {
                match &pv[0] {
                    PVal::PRest(p) => handlers::files(root, p, fs),
                    _ => None,
                }
            } else {
                None
            }
        },
        HandlerId::HUserInt => {
            if pv.len() == 1 && qv.len() == 0 {
                match &pv[0] {
                    PVal::PUInt(id) => Some(handlers::user_int(*id)),
                    _ => None,
                }
            } else {
                None
            }
        },
        HandlerId::HUser => {
            if pv.len() == 1 && qv.len() == 0 {
                match &pv[0] {
                    PVal::PStr(id) => Some(handlers::user(id)),
                    _ => None,
                }
            } else {
                None
            }
        },
        HandlerId::HUserAddForm => {
            if pv.len() == 0 && qv.len() == 2 {
                match (&qv[0], &qv[1]) {
                    (QVal::VUInt(id), QVal::VUser(form)) => Some(
                        handlers::user_add_form(*id, form),
                    ),
                    _ => None,
                }
            } else {
                None
            }
        },
        HandlerId::HQuery => {
            if pv.len() == 0 && qv.len() == 1 {
                match &qv[0] {
                    QVal::VStr(name) => Some(handlers::query(name)),
                    _ => None,
                }
            } else {
                None
            }
        },
        HandlerId::HQueryOptional => {
            if pv.len() == 0 && qv.len() == 1 {
                match &qv[0] {
                    QVal::VOptStr(o) => Some(handlers::query_optional(o)),
                    _ => None,
                }
            } else {
                None
            }
        },
    }
}

/// Tries one route against a request.
fn try_route(route: &Route, req: &Request, fs: &FileSystem) -> (r: Option<String>)
    ensures
        opt_view(r) == spec_try_route(*route, *req, *fs),
{
    if req.method != route.method {
        return None;
    }
    if !prefix_matches(&route.prefix, &req.path) {
        return None;
    }
    let si = route.prefix.len();
    proof {
        assert(route.pattern@.skip(0) =~= route.pattern@);
    }
    if !match_at(&route.pattern, 0, &req.path, si) {
        return None;
    }
    let mut pv: Vec<PVal> = Vec::new();
    let ok = decode_path_at(&route.pattern, 0, &req.path, si, &mut pv);
    if !ok {
        return None;
    }
    proof {
        assert(pvals_view(pv@)
            =~= Seq::<PValV>::empty() + pvals_view(pv@));
    }
    match decode_query(&route.qspec, &req.query) {
        None => None,
        Some(qv) => invoke(&route.handler, &pv, &qv, fs),
    }
}

/// A registration-time failure: the process must not start serving.
#[derive(Clone, Copy, PartialEq, Eq, Structural, Debug)]
pub enum ConfigError {
    /// Another registered route has the same method, mount prefix, shape and
    /// rank, and nothing would tell their matches apart.
    AmbiguousRoute,
    /// A multi-segment capture stands before the end of the pattern.
    MultiSegmentNotLast,
}

/// Where a new route of the given rank goes: after every route of lower or
/// equal rank, so that ties keep registration order.
pub open spec fn insert_pos(routes: Seq<Route>, rank: usize) -> int
    decreases routes.len(),
{
    if routes.len() == 0 {
        0
    } else if routes[0].rank <= rank {
        1 + insert_pos(routes.drop_first(), rank)
    } else {
        0
    }
}

/// The table is ordered by rank; ties stand in registration order.
pub open spec fn ranks_sorted(routes: Seq<Route>) -> bool {
    forall|i: int, j: int| 0 <= i < j < routes.len()
        ==> #[trigger] routes[i].rank <= #[trigger] routes[j].rank
}

proof fn lemma_insert_pos_props(routes: Seq<Route>, rank: usize)
    requires
        ranks_sorted(routes),
    ensures
        0 <= insert_pos(routes, rank) <= routes.len(),
        forall|k: int| 0 <= k < insert_pos(routes, rank)
            ==> #[trigger] routes[k].rank <= rank,
        insert_pos(routes, rank) < routes.len()
            ==> routes[insert_pos(routes, rank)].rank > rank,
    decreases routes.len(),
{
    if routes.len() > 0 && routes[0].rank <= rank {
        assert(ranks_sorted(routes.drop_first())) by {
            assert(forall|i: int, j: int| 0 <= i < j < routes.drop_first().len()
                ==> routes.drop_first()[i] == routes[i + 1]
                    && routes.drop_first()[j] == routes[j + 1]);
        }
        lemma_insert_pos_props(routes.drop_first(), rank);
        let p = insert_pos(routes, rank);
        assert(p == 1 + insert_pos(routes.drop_first(), rank));
        assert forall|k: int| 0 <= k < p implies #[trigger] routes[k].rank <= rank by {
            if k > 0 {
                assert(routes[k] == routes.drop_first()[k - 1]);
            }
        }
        if p < routes.len() {
            assert(routes[p] == routes.drop_first()[p - 1]);
        }
    }
}

pub proof fn lemma_insert_pos_skip(routes: Seq<Route>, rank: usize, i: int)
    requires
        0 <= i <= routes.len(),
        forall|j: int| 0 <= j < i ==> #[trigger] routes[j].rank <= rank,
    ensures
        insert_pos(routes, rank) == i + insert_pos(routes.skip(i), rank),
    decreases i,
{
    if i > 0 {
        assert(routes.drop_first().skip(i - 1) =~= routes.skip(i));
        lemma_insert_pos_skip(routes.drop_first(), rank, i - 1);
    } else {
        assert(routes.skip(0) =~= routes);
    }
}

/// The router: an ordered, rank-sorted table of routes, immutable once the
/// process starts serving. Dispatch never mutates it, so concurrent reads
/// are harmless.
pub struct Router {
    pub routes: Vec<Route>,
}

impl Router {
    /// The table well-formedness that registration keeps: sorted by rank
    /// (ties in registration order) and every pattern well formed.
    pub open spec fn wf(self) -> bool {
        ranks_sorted(self.routes@)
            && forall|i: int| 0 <= i < self.routes@.len()
                ==> route_wf(#[trigger] self.routes@[i])
    }

    /// An empty router.
    pub fn new() -> (r: Router)
        ensures
            r.routes@.len() == 0,
            r.wf(),
    {
        Router { routes: Vec::new() }
    }

    /// Registers a route: validates its pattern, refuses it when another
    /// registered route is ambiguous with it, and otherwise inserts it
    /// after every route of lower or equal rank.
    pub fn register(&mut self, route: Route) -> (r: Result<(), ConfigError>)
        requires
            old(self).wf(),
        ensures
            final(self).wf(),
            r == Err::<(), ConfigError>(ConfigError::MultiSegmentNotLast)
                <==> !route_wf(route),
            r == Err::<(), ConfigError>(ConfigError::AmbiguousRoute)
                <==> route_wf(route) && exists|j: int|
                    0 <= j < old(self).routes@.len()
                        && conflicts(#[trigger] old(self).routes@[j], route),
            r is Err ==> r == Err::<(), ConfigError>(ConfigError::MultiSegmentNotLast)
                || r == Err::<(), ConfigError>(ConfigError::AmbiguousRoute),
            r is Err ==> final(self).routes@ == old(self).routes@,
            r is Ok ==> final(self).routes@ == old(self).routes@.insert(
                insert_pos(old(self).routes@, route.rank),
                route,
            ),
    {
        let n = route.pattern.len();
        let mut i: usize = 0;
        while i < n
            invariant
                self == old(self),
                old(self).wf(),
                n == route.pattern@.len(),
                i <= n,
                forall|k: int| 0 <= k < i && k < n - 1
                    ==> !(#[trigger] route.pattern@[k] is DynMulti),
            decreases n - i,
        {
            if i + 1 < n {
                match &route.pattern[i] {
                    SegPat::DynMulti(_) => {
                        return Err(ConfigError::MultiSegmentNotLast);
                    },
                    _ => {},
                }
            }
            i = i + 1;
        }
        assert(route_wf(route));
        let mut j: usize = 0;
        while j < self.routes.len()
            invariant
                self == old(self),
                old(self).wf(),
                route_wf(route),
                j <= self.routes@.len(),
                forall|k: int| 0 <= k < j
                    ==> !conflicts(#[trigger] self.routes@[k], route),
            decreases self.routes@.len() - j,
        {
            if routes_conflict(&self.routes[j], &route) {
                return Err(ConfigError::AmbiguousRoute);
            }
            j = j + 1;
        }
        let mut pos: usize = 0;
        while pos < self.routes.len() && self.routes[pos].rank <= route.rank
            invariant
                self == old(self),
                old(self).wf(),
                route_wf(route),
                forall|k: int| 0 <= k < old(self).routes@.len()
                    ==> !conflicts(#[trigger] old(self).routes@[k], route),
                pos <= self.routes@.len(),
                forall|k: int| 0 <= k < pos ==> #[trigger] self.routes@[k].rank <= route.rank,
            decreases self.routes@.len() - pos,
        {
            pos = pos + 1;
        }
        proof {
            lemma_insert_pos_skip(self.routes@, route.rank, pos as int);
            if pos < self.routes@.len() {
                assert(self.routes@.skip(pos as int)[0] == self.routes@[pos as int]);
            } else {
                assert(self.routes@.skip(pos as int).len() == 0);
            }
            assert(insert_pos(self.routes@, route.rank) == pos as int);
            lemma_insert_pos_props(self.routes@, route.rank);
        }
        let ghost before = self.routes@;
        self.routes.insert(pos, route);
        proof {
            before.insert_ensures(pos as int, route);
            assert(ranks_sorted(self.routes@)) by {
                assert(forall|k: int| 0 <= k < before.len() && k >= pos
                    ==> #[trigger] before[k].rank > route.rank);
            }
        }
        Ok(())
    }

    /// Dispatches a request over the table: the first route in rank order
    /// that matches, decodes and yields content produces a success
    /// response; otherwise a not-found response with an empty body.
    pub fn dispatch(&self, req: &Request, fs: &FileSystem) -> (r: Response)
        ensures
            r.status == spec_dispatch(self.routes@, *req, *fs).0,
            r.body@ == spec_dispatch(self.routes@, *req, *fs).1,
    {
        let mut i: usize = 0;
        while i < self.routes.len()
            invariant
                i <= self.routes@.len(),
                forall|j: int| 0 <= j < i
                    ==> spec_try_route(#[trigger] self.routes@[j], *req, *fs) is None,
            decreases self.routes@.len() - i,
        {
            match try_route(&self.routes[i], req, fs) {
                Some(body) => {
                    proof {
                        lemma_dispatch_skip(self.routes@, *req, *fs, i as int);
                        assert(self.routes@.skip(i as int)[0] == self.routes@[i as int]);
                    }
                    return Response { status: 200, body };
                },
                None => {},
            }
            i = i + 1;
        }
        proof {
            lemma_dispatch_skip(self.routes@, *req, *fs, self.routes@.len() as int);
        }
        let body = String::new();
        proof {
            assert(body@ =~= Seq::<char>::empty());
        }
        Response { status: 404, body }
    }
}

} // verus!
