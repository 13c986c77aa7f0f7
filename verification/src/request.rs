//! Incoming requests: an HTTP method, a path as slash-separated segments,
//! and a query string as an ordered list of key/value tokens.

use vstd::prelude::*;
use vstd::string::*;
use crate::text::{
    views_of, split_at_char, drop_empty, first_index_of,
    split_str, nonempty_parts, find_char,
};

verus! {

/// An HTTP method.
#[derive(Clone, Copy, PartialEq, Eq, Structural, Debug)]
pub enum Method {
    Get,
    Put,
    Post,
    Delete,
    Head,
    Patch,
    Options,
}

/// One query token: a key, and the value after the first `'='` if the token
/// has one. The token `"name=me"` carries key `"name"` and value `"me"`;
/// the bare token `"nonsense"` carries no value.
pub struct QPair {
    pub key: String,
    pub value: Option<String>,
}

/// The sequence-level reading of one query token.
pub open spec fn qpair_view(p: QPair) -> (Seq<char>, Option<Seq<char>>) {
    (
        p.key@,
        match p.value {
            None => None,
            Some(v) => Some(v@),
        },
    )
}

/// The sequence-level reading of a query token list.
pub open spec fn qpairs_view(q: Seq<QPair>) -> Seq<(Seq<char>, Option<Seq<char>>)> {
    q.map_values(|p: QPair| qpair_view(p))
}

/// A transient request: one per inbound call.
pub struct Request {
    pub method: Method,
    pub path: Vec<String>,
    pub query: Vec<QPair>,
}

/// How a raw query token reads as a key/value pair: cut at the first `'='`.
pub open spec fn spec_query_pair(tok: Seq<char>) -> (Seq<char>, Option<Seq<char>>) {
    match first_index_of(tok, '=') {
        None => (tok, None),
        Some(j) => (tok.take(j), Some(tok.skip(j + 1))),
    }
}

/// The path segments of a raw path: the non-empty pieces between slashes,
/// so `"/hi/me"`, `"hi/me"` and `"/hi//me/"` all read as `["hi", "me"]`.
pub open spec fn spec_path_segments(s: Seq<char>) -> Seq<Seq<char>> {
    drop_empty(split_at_char(s, '/'))
}

/// The key/value pairs of a raw query string: non-empty `'&'`-separated
/// tokens, each cut at its first `'='`.
pub open spec fn spec_query_items(s: Seq<char>) -> Seq<(Seq<char>, Option<Seq<char>>)> {
    drop_empty(split_at_char(s, '&')).map_values(|t: Seq<char>| spec_query_pair(t))
}

/// The part of a URI before the first `'?'`.
pub open spec fn spec_uri_path(uri: Seq<char>) -> Seq<char> {
    match first_index_of(uri, '?') {
        None => uri,
        Some(j) => uri.take(j),
    }
}

/// The part of a URI after the first `'?'`, empty when there is none.
pub open spec fn spec_uri_query(uri: Seq<char>) -> Seq<char> {
    match first_index_of(uri, '?') {
        None => Seq::empty(),
        Some(j) => uri.skip(j + 1),
    }
}

/// Reads one raw query token as a key/value pair.
fn parse_query_token(tok: &str) -> (p: QPair)
    ensures
        qpair_view(p) == spec_query_pair(tok@),
{
    match find_char(tok, '=') {
        None => QPair { key: String::from_str(tok), value: None },
        Some(j) => {
            let n = tok.unicode_len();
            let key = tok.substring_char(0, j);
            let value = tok.substring_char(j + 1, n);
            proof {
                assert(tok@.subrange(0, j as int) =~= tok@.take(j as int));
                assert(tok@.subrange(j + 1, tok@.len() as int) =~= tok@.skip(j + 1));
            }
            QPair { key: String::from_str(key), value: Some(String::from_str(value)) }
        },
    }
}

impl Request {
    /// Builds a request from a method and a raw URI such as
    /// `"/query/?nonsense&name=me"`: the path is everything before the first
    /// `'?'`, split into non-empty segments; the rest is the query string,
    /// split into non-empty `'&'`-separated key/value tokens.
    pub fn parse(method: Method, uri: &str) -> (r: Request)
        ensures
            r.method == method,
            views_of(r.path@) == spec_path_segments(spec_uri_path(uri@)),
            qpairs_view(r.query@) == spec_query_items(spec_uri_query(uri@)),
    {
        let n = uri.unicode_len();
        let (path_str, query_str) = match find_char(uri, '?') {
            None => {
                let p = uri.substring_char(0, n);
                let q = uri.substring_char(n, n);
                proof {
                    assert(uri@.subrange(0, n as int) =~= uri@);
                    assert(uri@.subrange(n as int, n as int) =~= Seq::<char>::empty());
                }
                (p, q)
            },
            Some(j) => {
                let p = uri.substring_char(0, j);
                let q = uri.substring_char(j + 1, n);
                proof {
                    assert(uri@.subrange(0, j as int) =~= uri@.take(j as int));
                    assert(uri@.subrange(j + 1, n as int) =~= uri@.skip(j + 1));
                }
                (p, q)
            },
        };
        let raw_segs = split_str(path_str, '/');
        let path = nonempty_parts(raw_segs);
        let raw_toks = split_str(query_str, '&');
        let toks = nonempty_parts(raw_toks);
        let mut query: Vec<QPair> = Vec::new();
        let mut i: usize = 0;
        while i < toks.len()
            invariant
                i <= toks.len(),
                views_of(toks@) == drop_empty(split_at_char(spec_uri_query(uri@), '&')),
                qpairs_view(query@) =~= views_of(toks@).take(i as int).map_values(
                    |t: Seq<char>| spec_query_pair(t),
                ),
            decreases toks.len() - i,
        {
            let p = parse_query_token(toks[i].as_str());
            query.push(p);
            proof {
                let vs = views_of(toks@);
                assert(vs[i as int] == toks@[i as int]@);
                assert(vs.take(i + 1).map_values(|t: Seq<char>| spec_query_pair(t))
                    =~= vs.take(i as int).map_values(|t: Seq<char>| spec_query_pair(t))
                        .push(spec_query_pair(vs[i as int])));
            }
            i = i + 1;
        }
        proof {
            let vs = views_of(toks@);
            assert(vs.take(vs.len() as int) =~= vs);
        }
        Request { method, path, query }
    }
}

} // verus!
