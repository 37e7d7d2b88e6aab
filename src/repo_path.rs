//! A path inside a source tree, kept as the tree's absolute root and a path relative to it.
use vstd::prelude::*;

verus! {

/// Whether a path, written as text, is absolute: it starts at the filesystem root.
pub open spec fn is_absolute_path(p: Seq<char>) -> bool {
    p.len() > 0 && p[0] == '/'
}

/// Joins `tail` onto `base` the way a Unix path join does: an absolute `tail` replaces `base`;
/// otherwise a separator is inserted unless `base` is empty or already ends with one.
pub open spec fn join_path(base: Seq<char>, tail: Seq<char>) -> Seq<char> {
    if is_absolute_path(tail) {
        tail
    } else if base.len() == 0 || base.last() == '/' {
        base + tail
    } else {
        base + seq!['/'] + tail
    }
}

pub fn is_absolute(s: &str) -> (r: bool)
    ensures
        r == is_absolute_path(s@),
{
    if s.unicode_len() == 0 {
        false
    } else {
        s.get_char(0) == '/'
    }
}

/// Joins two paths; see `join_path`.
pub fn join_paths(base: &str, tail: &str) -> (r: String)
    ensures
        r@ == join_path(base@, tail@),
{
    if is_absolute(tail) {
        return tail.to_string();
    }
    let n = base.unicode_len();
    if n == 0 || base.get_char(n - 1) == '/' {
        base.to_string().concat(tail)
    } else {
        let r = base.to_string().concat("/");
        proof {
            reveal_strlit("/");
        }
        r.concat(tail)
    }
}

/// A path relative to the root of a source tree, together with that root.
#[derive(Debug)]
pub struct RepoPath {
    root: String,
    path: String,
}

impl RepoPath {
    /// The tree's root is absolute and the path within it is relative.
    pub open spec fn wf(&self) -> bool {
        is_absolute_path(self.root_view()) && !is_absolute_path(self.rel_view())
    }

    pub closed spec fn root_view(&self) -> Seq<char> {
        self.root@
    }

    pub closed spec fn rel_view(&self) -> Seq<char> {
        self.path@
    }

    pub fn new(root: &str, path: &str) -> (r: RepoPath)
        requires
            is_absolute_path(root@),
            !is_absolute_path(path@),
        ensures
            r.wf(),
            r.root_view() == root@,
            r.rel_view() == path@,
    {
        RepoPath { root: root.to_string(), path: path.to_string() }
    }

    pub fn root(&self) -> (r: &str)
        ensures
            r@ == self.root_view(),
    {
        self.root.as_str()
    }

    pub fn rel(&self) -> (r: &str)
        ensures
            r@ == self.rel_view(),
    {
        self.path.as_str()
    }

    /// The absolute path: the root joined with the relative path.
    pub fn abs(&self) -> (r: String)
        ensures
            r@ == join_path(self.root_view(), self.rel_view()),
    {
        join_paths(self.root.as_str(), self.path.as_str())
    }

    /// The path `path` below this one, in the same tree.
    pub fn join(&self, path: &str) -> (r: RepoPath)
        requires
            self.wf(),
            !is_absolute_path(path@),
        ensures
            r.wf(),
            r.root_view() == self.root_view(),
            r.rel_view() == join_path(self.rel_view(), path@),
    {
        let joined = join_paths(self.path.as_str(), path);
        RepoPath::new(self.root.as_str(), joined.as_str())
    }

    /// Another path in the same tree.
    pub fn with_same_root(&self, path: &str) -> (r: RepoPath)
        requires
            self.wf(),
            !is_absolute_path(path@),
        ensures
            r.wf(),
            r.root_view() == self.root_view(),
            r.rel_view() == path@,
    {
        RepoPath::new(self.root.as_str(), path)
    }

    /// The relative path as text, the way the path is shown to a user.
    pub fn to_string(&self) -> (r: String)
        ensures
            r@ == self.rel_view(),
    {
        self.path.clone()
    }
}

impl PartialEq for RepoPath {
    fn eq(&self, other: &RepoPath) -> (r: bool) {
        self.root == other.root && self.path == other.path
    }
}

impl vstd::std_specs::cmp::PartialEqSpecImpl for RepoPath {
    open spec fn obeys_eq_spec() -> bool {
        true
    }

    open spec fn eq_spec(&self, other: &RepoPath) -> bool {
        self.root_view() == other.root_view() && self.rel_view() == other.rel_view()
    }
}

} // verus!
