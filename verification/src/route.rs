//! Route matchers: path patterns, query specifications, ranks, and the
//! shape-based ambiguity test used at registration time.

use vstd::prelude::*;
use vstd::string::*;
use crate::text::views_of;
use crate::request::Method;

verus! {

/// How a dynamic single-segment capture is typed.
#[derive(Clone, Copy, PartialEq, Eq, Structural, Debug)]
pub enum DynKind {
    /// The raw segment text.
    AsString,
    /// The segment read as an unsigned decimal integer; a segment that is
    /// not such a number makes the route forward.
    AsUInt,
}

/// One element of a path pattern. The strings inside `Dyn` and `DynMulti`
/// are the capture names; they document the route and carry no matching
/// meaning, since captures are handed to handlers by position.
pub enum SegPat {
    /// Matches exactly this segment.
    Lit(String),
    /// Matches any single non-empty segment, captured under the given name.
    Dyn(String, DynKind),
    /// Matches one or more trailing segments, captured as a path remainder.
    /// Only allowed as the final pattern element.
    DynMulti(String),
}

/// One entry of a route's query specification.
pub enum QParam {
    /// A decorative token: the key must be present in the query string, in
    /// any position, but its value (if any) is discarded.
    Ignored(String),
    /// A required string parameter: the key must be present with a value.
    ReqStr(String),
    /// A required unsigned-integer parameter: the key must be present with
    /// an all-digit value that fits in a `u64`.
    ReqUInt(String),
    /// An optional string parameter: absence decodes to `None` rather than
    /// forwarding.
    OptStr(String),
    /// A trailing form capture that collects the user form out of the
    /// remaining query pairs: a required string `name` and a required
    /// unsigned integer `account`.
    UserFormRest,
}

/// The structured form object decoded by [`QParam::UserFormRest`].
pub struct UserForm {
    pub name: String,
    pub account: u64,
}

/// Which handler a route invokes. Captures reach the handler by position.
pub enum HandlerId {
    /// The greeting at the site root.
    HRoot,
    /// Greets the captured name segment.
    HHi,
    /// Serves a stored file from under the given root directory segments.
    HFiles(Vec<String>),
    /// Greets a user by numeric id.
    HUserInt,
    /// Greets a user by raw id text.
    HUser,
    /// Echoes a numeric id and the decoded user form.
    HUserAddForm,
    /// Greets the required `name` query parameter.
    HQuery,
    /// Greets the optional `name` query parameter, or plainly when absent.
    HQueryOptional,
}

/// A registered route.
pub struct Route {
    pub method: Method,
    /// The mount prefix, as path segments.
    pub prefix: Vec<String>,
    /// The path pattern matched against the segments after the prefix.
    pub pattern: Vec<SegPat>,
    /// The query specification.
    pub qspec: Vec<QParam>,
    /// The priority: lower ranks are tried first, ties go by registration
    /// order.
    pub rank: usize,
    pub handler: HandlerId,
}

/// A multi-segment capture may stand only in the last pattern position.
pub open spec fn pattern_wf(pats: Seq<SegPat>) -> bool {
    forall|i: int| 0 <= i < pats.len() - 1 ==> !(#[trigger] pats[i] is DynMulti)
}

pub open spec fn route_wf(r: Route) -> bool {
    pattern_wf(r.pattern@)
}

/// Whether two pattern elements match the same single requests: literals by
/// equal text, dynamic captures of either typing, and remainders.
pub open spec fn shape_eq(a: SegPat, b: SegPat) -> bool {
    match (a, b) {
        (SegPat::Lit(x), SegPat::Lit(y)) => x@ == y@,
        (SegPat::Dyn(_, _), SegPat::Dyn(_, _)) => true,
        (SegPat::DynMulti(_), SegPat::DynMulti(_)) => true,
        _ => false,
    }
}

pub open spec fn same_shape(a: Seq<SegPat>, b: Seq<SegPat>) -> bool {
    a.len() == b.len() && forall|i: int| 0 <= i < a.len() ==> shape_eq(#[trigger] a[i], b[i])
}

/// Two routes are ambiguous when nothing tells their matches apart: same
/// method, same mount prefix, same literal-vs-dynamic shape, same rank.
pub open spec fn conflicts(a: Route, b: Route) -> bool {
    a.method == b.method
        && views_of(a.prefix@) == views_of(b.prefix@)
        && same_shape(a.pattern@, b.pattern@)
        && a.rank == b.rank
}

/// The number of dynamic elements of a pattern; the default rank, so that
/// more specific patterns (fewer dynamic elements) are tried first.
pub open spec fn dyn_count(pats: Seq<SegPat>) -> nat
    decreases pats.len(),
{
    if pats.len() == 0 {
        0
    } else {
        dyn_count(pats.drop_last()) + if pats.last() is Lit { 0 as nat } else { 1 as nat }
    }
}

/// Compares two strings by their character views.
pub fn str_eq(a: &String, b: &String) -> (r: bool)
    ensures
        r == (a@ == b@),
{
    a.eq(b)
}

/// Compares two segment lists by their character views.
pub fn segs_eq(a: &Vec<String>, b: &Vec<String>) -> (r: bool)
    ensures
        r == (views_of(a@) == views_of(b@)),
{
    if a.len() != b.len() {
        return false;
    }
    let mut i: usize = 0;
    while i < a.len()
        invariant
            i <= a.len() == b.len(),
            forall|k: int| 0 <= k < i ==> views_of(a@)[k] == views_of(b@)[k],
        decreases a.len() - i,
    {
        if !str_eq(&a[i], &b[i]) {
            assert(views_of(a@)[i as int] != views_of(b@)[i as int]);
            return false;
        }
        i = i + 1;
    }
    proof {
        assert(views_of(a@) =~= views_of(b@));
    }
    true
}

/// Decides [`shape_eq`] of two pattern elements.
pub fn shape_eq_exec(a: &SegPat, b: &SegPat) -> (r: bool)
    ensures
        r == shape_eq(*a, *b),
{
    match (a, b) {
        (SegPat::Lit(x), SegPat::Lit(y)) => str_eq(x, y),
        (SegPat::Dyn(_, _), SegPat::Dyn(_, _)) => true,
        (SegPat::DynMulti(_), SegPat::DynMulti(_)) => true,
        _ => false,
    }
}

/// Decides [`conflicts`] of two routes.
pub fn routes_conflict(a: &Route, b: &Route) -> (r: bool)
    ensures
        r == conflicts(*a, *b),
{
    if a.method != b.method {
        return false;
    }
    if a.rank != b.rank {
        return false;
    }
    if !segs_eq(&a.prefix, &b.prefix) {
        return false;
    }
    if a.pattern.len() != b.pattern.len() {
        return false;
    }
    let mut i: usize = 0;
    while i < a.pattern.len()
        invariant
            i <= a.pattern.len() == b.pattern.len(),
            forall|k: int| 0 <= k < i ==> shape_eq(#[trigger] a.pattern@[k], b.pattern@[k]),
        decreases a.pattern.len() - i,
    {
        if !shape_eq_exec(&a.pattern[i], &b.pattern[i]) {
            return false;
        }
        i = i + 1;
    }
    true
}

/// Counts the dynamic elements of a pattern.
pub fn dyn_count_exec(pats: &Vec<SegPat>) -> (r: usize)
    ensures
        r as nat == dyn_count(pats@),
{
    let mut count: usize = 0;
    let mut i: usize = 0;
    while i < pats.len()
        invariant
            i <= pats.len(),
            count <= i,
            count as nat == dyn_count(pats@.take(i as int)),
        decreases pats.len() - i,
    {
        proof {
            assert(pats@.take(i + 1).drop_last() =~= pats@.take(i as int));
            assert(pats@.take(i + 1).last() == pats@[i as int]);
        }
        match &pats[i] {
            SegPat::Lit(_) => {},
            _ => {
                count = count + 1;
            },
        }
        i = i + 1;
    }
    proof {
        assert(pats@.take(pats@.len() as int) =~= pats@);
    }
    count
}

/// Builds a route. Without an explicit rank the route ranks by specificity:
/// its number of dynamic pattern elements.
pub fn make_route(
    method: Method,
    prefix: Vec<String>,
    pattern: Vec<SegPat>,
    qspec: Vec<QParam>,
    handler: HandlerId,
    explicit_rank: Option<usize>,
) -> (r: Route)
    ensures
        r.method == method,
        r.prefix == prefix,
        r.pattern == pattern,
        r.qspec == qspec,
        r.handler == handler,
        r.rank as nat == match explicit_rank {
            Some(k) => k as nat,
            None => dyn_count(pattern@),
        },
{
    let rank = match explicit_rank {
        Some(k) => k,
        None => dyn_count_exec(&pattern),
    };
    Route { method, prefix, pattern, qspec, rank, handler }
}

} // verus!
