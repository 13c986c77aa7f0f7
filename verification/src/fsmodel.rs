//! A read-only snapshot of the files a router may serve: each entry a path,
//! as segments from the serving area's top, and the file's contents. The
//! surrounding program fills the snapshot; the router only looks paths up in
//! it, after checking that a captured path cannot escape its root.

use vstd::prelude::*;
use vstd::string::*;
use crate::text::views_of;
use crate::route::str_eq;

verus! {

/// One stored file.
pub struct FileEntry {
    pub path: Vec<String>,
    pub data: String,
}

/// The file snapshot handed to dispatch.
pub struct FileSystem {
    pub files: Vec<FileEntry>,
}

/// The contents of the first entry whose path reads as `p`, if any.
pub open spec fn fs_lookup(files: Seq<FileEntry>, p: Seq<Seq<char>>) -> Option<Seq<char>>
    decreases files.len(),
{
    if files.len() == 0 {
        None
    } else if views_of(files[0].path@) == p {
        Some(files[0].data@)
    } else {
        fs_lookup(files.drop_first(), p)
    }
}

proof fn lemma_fs_lookup_skip(files: Seq<FileEntry>, p: Seq<Seq<char>>, i: int)
    requires
        0 <= i <= files.len(),
        forall|j: int| 0 <= j < i ==> views_of(#[trigger] files[j].path@) != p,
    ensures
        fs_lookup(files, p) == fs_lookup(files.skip(i), p),
    decreases i,
{
    if i > 0 {
        assert(files.drop_first().skip(i - 1) =~= files.skip(i));
        lemma_fs_lookup_skip(files.drop_first(), p, i - 1);
    } else {
        assert(files.skip(0) =~= files);
    }
}

/// One path segment that cannot take a resolved path upward or sideways:
/// non-empty, not a current- or parent-directory reference, and free of
/// slashes.
pub open spec fn seg_ok(s: Seq<char>) -> bool {
    s.len() > 0 && s != ".."@ && s != "."@
        && forall|j: int| 0 <= j < s.len() ==> s[j] != '/'
}

/// A captured path remainder that stays below the root it is joined to:
/// at least one segment, every segment harmless.
pub open spec fn safe_rel_segs(p: Seq<Seq<char>>) -> bool {
    p.len() >= 1 && forall|i: int| 0 <= i < p.len() ==> seg_ok(#[trigger] p[i])
}

/// What the file-serving handler yields: the stored contents of
/// `root + p`, and only when `p` cannot escape the root.
pub open spec fn spec_files(root: Seq<Seq<char>>, p: Seq<Seq<char>>, fs: FileSystem)
    -> Option<Seq<char>> {
    if safe_rel_segs(p) {
        fs_lookup(fs.files@, root + p)
    } else {
        None
    }
}

/// Decides [`seg_ok`] for one segment.
fn seg_ok_exec(s: &String) -> (r: bool)
    ensures
        r == seg_ok(s@),
{
    let n = s.as_str().unicode_len();
    if n == 0 {
        return false;
    }
    let parent = String::from_str("..");
    let here = String::from_str(".");
    if str_eq(s, &parent) || str_eq(s, &here) {
        return false;
    }
    let mut i: usize = 0;
    while i < n
        invariant
            i <= n == s@.len(),
            forall|k: int| 0 <= k < i ==> s@[k] != '/',
        decreases n - i,
    {
        if s.as_str().get_char(i) == '/' {
            return false;
        }
        i = i + 1;
    }
    true
}

/// Decides [`safe_rel_segs`] for a captured remainder.
pub fn safe_rel_segs_exec(p: &Vec<String>) -> (r: bool)
    ensures
        r == safe_rel_segs(views_of(p@)),
{
    if p.len() == 0 {
        return false;
    }
    let mut i: usize = 0;
    while i < p.len()
        invariant
            i <= p.len(),
            p.len() >= 1,
            forall|k: int| 0 <= k < i ==> seg_ok(#[trigger] views_of(p@)[k]),
        decreases p.len() - i,
    {
        if !seg_ok_exec(&p[i]) {
            assert(!seg_ok(views_of(p@)[i as int]));
            return false;
        }
        i = i + 1;
    }
    true
}

impl FileSystem {
    /// An empty snapshot.
    pub fn new() -> (r: FileSystem)
        ensures
            r.files@.len() == 0,
    {
        FileSystem { files: Vec::new() }
    }

    /// Records one file.
    pub fn add_file(&mut self, path: Vec<String>, data: String)
        ensures
            final(self).files@ == old(self).files@.push(FileEntry { path, data }),
    {
        self.files.push(FileEntry { path, data });
    }

    /// Looks a path up, returning the contents of the first entry that
    /// carries it.
    pub fn lookup(&self, p: &Vec<String>) -> (r: Option<String>)
        ensures
            match r {
                Some(d) => fs_lookup(self.files@, views_of(p@)) == Some(d@),
                None => fs_lookup(self.files@, views_of(p@)) is None,
            },
    {
        let mut i: usize = 0;
        while i < self.files.len()
            invariant
                i <= self.files@.len(),
                forall|j: int| 0 <= j < i
                    ==> views_of(#[trigger] self.files@[j].path@) != views_of(p@),
            decreases self.files@.len() - i,
        {
            if crate::route::segs_eq(&self.files[i].path, p) {
                proof {
                    lemma_fs_lookup_skip(self.files@, views_of(p@), i as int);
                    assert(self.files@.skip(i as int)[0] == self.files@[i as int]);
                }
                return Some(self.files[i].data.clone());
            }
            i = i + 1;
        }
        proof {
            lemma_fs_lookup_skip(self.files@, views_of(p@), self.files@.len() as int);
        }
        None
    }
}

} // verus!
