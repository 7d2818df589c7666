//! Absolute paths, and paths relative to the repository root.
use crate::order::{is_before, lemma_texts_before_is_strict, text_before, texts_before, Ordered};
use crate::text::{join, joined, same};
use vstd::prelude::*;

verus! {

/// An absolute path of the system: how it is written, and its components from
/// the root of the file system on. Two paths are the same where their
/// components are.
#[derive(Debug)]
pub struct AbsolutePath {
    pub text: String,
    pub components: Vec<String>,
}

/// The model of an `AbsolutePath`.
pub struct PathModel {
    pub text: Seq<char>,
    pub components: Seq<Seq<char>>,
}

/// A path relative to the repository root, by its components.
#[derive(Debug)]
pub struct AnchoredPath {
    pub components: Vec<String>,
}

impl DeepView for AbsolutePath {
    type V = PathModel;

    open spec fn deep_view(&self) -> PathModel {
        PathModel { text: self.text@, components: self.components.deep_view() }
    }
}

impl DeepView for AnchoredPath {
    type V = Seq<Seq<char>>;

    open spec fn deep_view(&self) -> Seq<Seq<char>> {
        self.components.deep_view()
    }
}

/// The path from `root` to `path`, where `path` lies under `root`.
pub open spec fn anchored(root: Seq<Seq<char>>, path: Seq<Seq<char>>) -> Option<Seq<Seq<char>>> {
    if root.is_prefix_of(path) {
        Some(path.skip(root.len() as int))
    } else {
        None
    }
}

/// What is called `name` in the directory `path`; `text` is how it is written.
pub open spec fn child(path: PathModel, name: Seq<char>, text: Seq<char>) -> PathModel {
    PathModel { text, components: path.components.push(name) }
}

/// How a relative path is written on Unix.
pub open spec fn unix(components: Seq<Seq<char>>) -> Seq<char> {
    join(components, seq!['/'])
}

/// A copy of each text.
pub fn copy_texts(texts: &Vec<String>) -> (r: Vec<String>)
    ensures
        r.deep_view() == texts.deep_view(),
{
    let r = texts.clone();
    assert(r.deep_view() =~= texts.deep_view());
    r
}

impl AbsolutePath {
    pub fn copy(&self) -> (r: AbsolutePath)
        ensures
            r.deep_view() == self.deep_view(),
    {
        AbsolutePath { text: self.text.clone(), components: copy_texts(&self.components) }
    }

    /// What is called `name` in this directory; `text` is how it is written, which
    /// differs from system to system.
    pub fn child(&self, name: &str, text: String) -> (r: AbsolutePath)
        ensures
            r.deep_view() == child(self.deep_view(), name@, text@),
    {
        let mut components = copy_texts(&self.components);
        components.push(name.to_owned());
        assert(components.deep_view() =~= self.components.deep_view().push(name@));
        AbsolutePath { text, components }
    }

    /// The path from `self` to `path`, where `path` lies under `self`.
    pub fn anchor(&self, path: &AbsolutePath) -> (r: Option<AnchoredPath>)
        ensures
            r.deep_view() == anchored(self.deep_view().components, path.deep_view().components),
    {
        let ghost root = self.components.deep_view();
        let ghost full = path.components.deep_view();
        if path.components.len() < self.components.len() {
            return None;
        }
        let mut i: usize = 0;
        while i < self.components.len()
            invariant
                i <= self.components.len() <= path.components.len(),
                root == self.components.deep_view(),
                full == path.components.deep_view(),
                forall|j: int| 0 <= j < i ==> root[j] == full[j],
            decreases self.components.len() - i,
        {
            if !same(self.components[i].as_str(), path.components[i].as_str()) {
                assert(full.subrange(0, root.len() as int)[i as int] != root[i as int]);
                return None;
            }
            i = i + 1;
        }
        let mut components: Vec<String> = Vec::new();
        while i < path.components.len()
            invariant
                self.components.len() <= i <= path.components.len(),
                full == path.components.deep_view(),
                components.deep_view() == full.subrange(self.components.len() as int, i as int),
            decreases path.components.len() - i,
        {
            let ghost before = components.deep_view();
            components.push(path.components[i].clone());
            assert(components.deep_view() =~= before.push(full[i as int]));
            i = i + 1;
            assert(components.deep_view() =~= full.subrange(
                self.components.len() as int,
                i as int,
            ));
        }
        proof {
            assert(root =~= full.subrange(0, root.len() as int));
            assert(components.deep_view() =~= full.skip(root.len() as int));
        }
        Some(AnchoredPath { components })
    }

    /// Whether the two paths are the same.
    pub fn same_as(&self, other: &AbsolutePath) -> (r: bool)
        ensures
            r == (self.deep_view().components == other.deep_view().components),
    {
        let ghost a = self.components.deep_view();
        let ghost b = other.components.deep_view();
        if self.components.len() != other.components.len() {
            assert(a.len() != b.len());
            return false;
        }
        let mut i: usize = 0;
        while i < self.components.len()
            invariant
                i <= self.components.len() == other.components.len(),
                a == self.components.deep_view(),
                b == other.components.deep_view(),
                forall|j: int| 0 <= j < i ==> a[j] == b[j],
            decreases self.components.len() - i,
        {
            if !same(self.components[i].as_str(), other.components[i].as_str()) {
                assert(a[i as int] != b[i as int]);
                return false;
            }
            i = i + 1;
        }
        assert(a =~= b);
        true
    }
}

impl AnchoredPath {
    /// How the path is written on Unix: the components with `/` between them,
    /// and nothing for the root itself.
    pub fn to_unix(&self) -> (r: String)
        ensures
            r@ == unix(self.deep_view()),
    {
        proof {
            reveal_strlit("/");
            assert("/"@ =~= seq!['/']);
        }
        joined(&self.components, "/")
    }
}

impl Ordered for AnchoredPath {
    open spec fn before(a: Seq<Seq<char>>, b: Seq<Seq<char>>) -> bool {
        texts_before(a, b)
    }

    proof fn irreflexive(a: Seq<Seq<char>>) {
        let order = |x: Seq<Seq<char>>, y: Seq<Seq<char>>| texts_before(x, y);
        lemma_texts_before_is_strict();
        assert(!order(a, a));
    }

    proof fn transitive(a: Seq<Seq<char>>, b: Seq<Seq<char>>, c: Seq<Seq<char>>) {
        let order = |x: Seq<Seq<char>>, y: Seq<Seq<char>>| texts_before(x, y);
        lemma_texts_before_is_strict();
        assert(order(a, b) && order(b, c));
    }

    proof fn connected(a: Seq<Seq<char>>, b: Seq<Seq<char>>) {
        let order = |x: Seq<Seq<char>>, y: Seq<Seq<char>>| texts_before(x, y);
        lemma_texts_before_is_strict();
        assert(order(a, b) || a == b || order(b, a));
    }

    fn precedes(&self, other: &Self) -> (r: bool) {
        let ghost a = self.components.deep_view();
        let ghost b = other.components.deep_view();
        let mut i: usize = 0;
        assert(a.skip(0) =~= a && b.skip(0) =~= b);
        while i < self.components.len() && i < other.components.len()
            invariant
                a == self.components.deep_view(),
                b == other.components.deep_view(),
                i <= self.components.len(),
                i <= other.components.len(),
                texts_before(a, b) == texts_before(a.skip(i as int), b.skip(i as int)),
            decreases self.components.len() - i,
        {
            let ghost p = a.skip(i as int);
            let ghost q = b.skip(i as int);
            proof {
                String::connected(p[0], q[0]);
                String::irreflexive(p[0]);
                if text_before(p[0], q[0]) && text_before(q[0], p[0]) {
                    String::transitive(p[0], q[0], p[0]);
                }
                assert(p.skip(1) =~= a.skip(i + 1));
                assert(q.skip(1) =~= b.skip(i + 1));
            }
            if is_before(self.components[i].as_str(), other.components[i].as_str()) {
                return true;
            }
            if is_before(other.components[i].as_str(), self.components[i].as_str()) {
                return false;
            }
            i = i + 1;
        }
        i < other.components.len()
    }
}

} // verus!
