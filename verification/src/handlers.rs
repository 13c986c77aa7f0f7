//! The route handlers: pure functions from decoded parameters to response
//! bodies, except the file handler, which probes the read-only file
//! snapshot. Each body is pinned to an exact sequence-level spec.

use vstd::prelude::*;
use vstd::string::*;
use crate::num::{dec_str_of, u64_to_dec};
use crate::text::{views_of, opt_view};
use crate::route::UserForm;
use crate::fsmodel::{FileSystem, spec_files};

verus! {

/// The body of the site root.
pub open spec fn root_body() -> Seq<char> {
    "Hello, world!"@
}

/// The greeting for a name, used by the path and query greeters.
pub open spec fn greet_body(name: Seq<char>) -> Seq<char> {
    "Hi, "@ + name + "!"@
}

/// The greeting for a numeric user id.
pub open spec fn user_int_body(id: u64) -> Seq<char> {
    "Hi, user#"@ + dec_str_of(id as nat) + "!"@
}

/// The greeting for a raw user id.
pub open spec fn user_body(id: Seq<char>) -> Seq<char> {
    "Hi, user "@ + id + "!"@
}

/// The echo of a numeric id and a decoded user form.
pub open spec fn user_add_form_body(id: u64, name: Seq<char>, account: u64) -> Seq<char> {
    "Hi, user "@ + dec_str_of(id as nat)
        + " with Form(User { name: \""@ + name
        + "\", account: "@ + dec_str_of(account as nat)
        + " })!"@
}

/// The greeting when the optional name is absent.
pub open spec fn plain_greeting() -> Seq<char> {
    "Hi!"@
}

/// Serves the site root.
pub fn root() -> (r: String)
    ensures
        r@ == root_body(),
{
    String::from_str("Hello, world!")
}

/// Greets a captured name segment.
pub fn hi(name: &String) -> (r: String)
    ensures
        r@ == greet_body(name@),
{
    String::from_str("Hi, ").concat(name.as_str()).concat("!")
}

/// Greets a user by numeric id.
pub fn user_int(id: u64) -> (r: String)
    ensures
        r@ == user_int_body(id),
{
    String::from_str("Hi, user#").concat(u64_to_dec(id).as_str()).concat("!")
}

/// Greets a user by raw id text.
pub fn user(id: &String) -> (r: String)
    ensures
        r@ == user_body(id@),
{
    String::from_str("Hi, user ").concat(id.as_str()).concat("!")
}

/// Echoes a numeric id and the decoded user form.
pub fn user_add_form(id: u64, form: &UserForm) -> (r: String)
    ensures
        r@ == user_add_form_body(id, form.name@, form.account),
{
    String::from_str("Hi, user ")
        .concat(u64_to_dec(id).as_str())
        .concat(" with Form(User { name: \"")
        .concat(form.name.as_str())
        .concat("\", account: ")
        .concat(u64_to_dec(form.account).as_str())
        .concat(" })!")
}

/// Greets the required `name` query parameter.
pub fn query(name: &String) -> (r: String)
    ensures
        r@ == greet_body(name@),
{
    String::from_str("Hi, ").concat(name.as_str()).concat("!")
}

/// Greets the optional `name` query parameter, or plainly when absent.
pub fn query_optional(name: &Option<String>) -> (r: String)
    ensures
        r@ == match opt_view(*name) {
            Some(n) => greet_body(n),
            None => plain_greeting(),
        },
{
    match name {
        Some(n) => String::from_str("Hi, ").concat(n.as_str()).concat("!"),
        None => String::from_str("Hi!"),
    }
}

/// Serves a stored file: the captured remainder is joined below the given
/// root, and only when it cannot escape it.
pub fn files(root: &Vec<String>, captured: &Vec<String>, fs: &FileSystem) -> (r: Option<String>)
    ensures
        opt_view(r) == spec_files(views_of(root@), views_of(captured@), *fs),
{
    if !crate::fsmodel::safe_rel_segs_exec(captured) {
        return None;
    }
    let mut joined: Vec<String> = Vec::new();
    proof {
        assert(joined@ =~= root@.take(0));
    }
    let mut i: usize = 0;
    while i < root.len()
        invariant
            i <= root.len(),
            joined@ == root@.take(i as int),
        decreases root.len() - i,
    {
        joined.push(root[i].clone());
        proof {
            assert(root@.take(i as int).push(root@[i as int]) =~= root@.take(i + 1));
        }
        i = i + 1;
    }
    proof {
        assert(root@.take(root@.len() as int) =~= root@);
    }
    let mut j: usize = 0;
    proof {
        assert(joined@ =~= root@ + captured@.take(0));
    }
    while j < captured.len()
        invariant
            j <= captured.len(),
            joined@ == root@ + captured@.take(j as int),
        decreases captured.len() - j,
    {
        joined.push(captured[j].clone());
        proof {
            assert((root@ + captured@.take(j as int)).push(captured@[j as int])
                =~= root@ + captured@.take(j + 1));
        }
        j = j + 1;
    }
    proof {
        assert(root@ + captured@.take(captured@.len() as int) =~= root@ + captured@);
        assert(views_of(root@ + captured@) =~= views_of(root@) + views_of(captured@));
    }
    fs.lookup(&joined)
}

} // verus!
