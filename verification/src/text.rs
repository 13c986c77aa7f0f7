//! Text primitives for routing: cutting a string at a separator character,
//! dropping empty pieces, and finding the first occurrence of a character.

use vstd::prelude::*;
use vstd::string::*;

verus! {

/// The character views of a sequence of strings.
pub open spec fn views_of(ss: Seq<String>) -> Seq<Seq<char>> {
    ss.map_values(|t: String| t@)
}

/// The character view of an optional string.
pub open spec fn opt_view(o: Option<String>) -> Option<Seq<char>> {
    match o {
        None => None,
        Some(s) => Some(s@),
    }
}

/// The pieces of `s` cut at every occurrence of `c`, empty pieces kept:
/// cutting `"a//b"` at `'/'` gives `["a", "", "b"]`.
pub open spec fn split_at_char(s: Seq<char>, c: char) -> Seq<Seq<char>>
    decreases s.len(),
{
    if s.len() == 0 {
        seq![Seq::<char>::empty()]
    } else if s.last() == c {
        split_at_char(s.drop_last(), c).push(Seq::<char>::empty())
    } else {
        let p = split_at_char(s.drop_last(), c);
        p.update(p.len() - 1, p.last().push(s.last()))
    }
}

/// Splitting never yields an empty list of pieces.
proof fn lemma_split_at_char_len(s: Seq<char>, c: char)
    ensures
        split_at_char(s, c).len() >= 1,
    decreases s.len(),
{
    if s.len() > 0 {
        lemma_split_at_char_len(s.drop_last(), c);
    }
}

/// Appending separator-free text extends the last piece and nothing else.
proof fn lemma_split_extend(p: Seq<char>, t: Seq<char>, c: char)
    requires
        forall|k: int| 0 <= k < t.len() ==> t[k] != c,
    ensures
        split_at_char(p + t, c).len() == split_at_char(p, c).len(),
        split_at_char(p + t, c) =~= split_at_char(p, c).update(
            split_at_char(p, c).len() - 1,
            split_at_char(p, c).last() + t,
        ),
    decreases t.len(),
{
    lemma_split_at_char_len(p, c);
    if t.len() == 0 {
        assert(p + t =~= p);
        let sp = split_at_char(p, c);
        assert(sp.last() + t =~= sp.last());
        assert(sp.update(sp.len() - 1, sp.last()) =~= sp);
    } else {
        lemma_split_extend(p, t.drop_last(), c);
        assert((p + t).drop_last() =~= p + t.drop_last());
        assert((p + t).last() == t.last());
        assert(t.last() != c);
        let sp = split_at_char(p, c);
        let sq = split_at_char(p + t.drop_last(), c);
        assert(split_at_char(p + t, c) =~= sq.update(sq.len() - 1, sq.last().push(t.last())));
        assert(sq.last() == sp.last() + t.drop_last());
        assert((sp.last() + t.drop_last()).push(t.last()) =~= sp.last() + t);
    }
}

/// Splits `s` at every occurrence of `c`, keeping empty pieces.
pub fn split_str(s: &str, c: char) -> (r: Vec<String>)
    ensures
        views_of(r@) == split_at_char(s@, c),
{
    let n = s.unicode_len();
    let mut parts: Vec<String> = Vec::new();
    let mut start: usize = 0;
    let mut i: usize = 0;
    while i < n
        invariant
            start <= i <= n == s@.len(),
            views_of(parts@) =~= split_at_char(s@.take(start as int), c).drop_last(),
            split_at_char(s@.take(start as int), c).last() == Seq::<char>::empty(),
            split_at_char(s@.take(start as int), c).len() >= 1,
            forall|k: int| start <= k < i ==> s@[k] != c,
        decreases n - i,
    {
        let ch = s.get_char(i);
        if ch == c {
            let seg = s.substring_char(start, i);
            proof {
                let pre = s@.take(start as int);
                let mid = s@.subrange(start as int, i as int);
                lemma_split_extend(pre, mid, c);
                assert(pre + mid =~= s@.take(i as int));
                assert(s@.take(i + 1).drop_last() =~= s@.take(i as int));
                assert(s@.take(i + 1).last() == s@[i as int]);
                let sp = split_at_char(pre, c);
                assert(sp.last() + mid =~= mid);
                assert(split_at_char(s@.take(i + 1), c)
                    =~= split_at_char(s@.take(i as int), c).push(Seq::<char>::empty()));
                assert(split_at_char(s@.take(i as int), c)
                    =~= sp.drop_last().push(mid));
            }
            parts.push(String::from_str(seg));
            proof {
                assert(views_of(parts@) =~= split_at_char(s@.take(i + 1), c).drop_last());
            }
            start = i + 1;
        }
        i = i + 1;
    }
    let seg = s.substring_char(start, n);
    proof {
        let pre = s@.take(start as int);
        let mid = s@.subrange(start as int, n as int);
        lemma_split_extend(pre, mid, c);
        assert(pre + mid =~= s@);
        let sp = split_at_char(pre, c);
        assert(sp.last() + mid =~= mid);
        assert(split_at_char(s@, c).drop_last() =~= sp.drop_last());
        assert(split_at_char(s@, c).last() == mid);
    }
    parts.push(String::from_str(seg));
    proof {
        let sa = split_at_char(s@, c);
        assert(views_of(parts@) =~= sa.drop_last().push(sa.last()));
        assert(sa.drop_last().push(sa.last()) =~= sa);
    }
    parts
}

/// The non-empty pieces of `parts`, in order.
pub open spec fn drop_empty(parts: Seq<Seq<char>>) -> Seq<Seq<char>>
    decreases parts.len(),
{
    if parts.len() == 0 {
        Seq::empty()
    } else if parts.last().len() == 0 {
        drop_empty(parts.drop_last())
    } else {
        drop_empty(parts.drop_last()).push(parts.last())
    }
}

/// Keeps only the non-empty strings of `parts`, in order.
pub fn nonempty_parts(parts: Vec<String>) -> (r: Vec<String>)
    ensures
        views_of(r@) == drop_empty(views_of(parts@)),
{
    let mut out: Vec<String> = Vec::new();
    let mut i: usize = 0;
    while i < parts.len()
        invariant
            i <= parts.len(),
            views_of(out@) =~= drop_empty(views_of(parts@).take(i as int)),
        decreases parts.len() - i,
    {
        proof {
            assert(views_of(parts@).take(i + 1).drop_last() =~= views_of(parts@).take(i as int));
            assert(views_of(parts@).take(i + 1).last() == parts@[i as int]@);
        }
        if !parts[i].as_str().is_empty() {
            out.push(parts[i].clone());
        }
        i = i + 1;
    }
    proof {
        assert(views_of(parts@).take(parts@.len() as int) =~= views_of(parts@));
    }
    out
}

/// The position of the first occurrence of `c` in `s`, if any.
pub open spec fn first_index_of(s: Seq<char>, c: char) -> Option<int>
    decreases s.len(),
{
    if s.len() == 0 {
        None
    } else if s[0] == c {
        Some(0)
    } else {
        match first_index_of(s.drop_first(), c) {
            None => None,
            Some(j) => Some(j + 1),
        }
    }
}

/// A position with `c`, before which `c` never occurs, is the first one.
proof fn lemma_first_index_at(s: Seq<char>, c: char, i: int)
    requires
        0 <= i < s.len(),
        s[i] == c,
        forall|k: int| 0 <= k < i ==> s[k] != c,
    ensures
        first_index_of(s, c) == Some(i),
    decreases i,
{
    if i > 0 {
        lemma_first_index_at(s.drop_first(), c, i - 1);
    }
}

/// A string without `c` has no first occurrence of it.
proof fn lemma_first_index_none(s: Seq<char>, c: char)
    requires
        forall|k: int| 0 <= k < s.len() ==> s[k] != c,
    ensures
        first_index_of(s, c) is None,
    decreases s.len(),
{
    if s.len() > 0 {
        lemma_first_index_none(s.drop_first(), c);
    }
}

/// Finds the first occurrence of `c` in `s`.
pub fn find_char(s: &str, c: char) -> (r: Option<usize>)
    ensures
        match r {
            Some(i) => i < s@.len() && first_index_of(s@, c) == Some(i as int),
            None => first_index_of(s@, c) is None,
        },
{
    let n = s.unicode_len();
    let mut i: usize = 0;
    while i < n
        invariant
            i <= n == s@.len(),
            forall|k: int| 0 <= k < i ==> s@[k] != c,
        decreases n - i,
    {
        if s.get_char(i) == c {
            proof {
                lemma_first_index_at(s@, c, i as int);
            }
            return Some(i);
        }
        i = i + 1;
    }
    proof {
        lemma_first_index_none(s@, c);
    }
    None
}

} // verus!
