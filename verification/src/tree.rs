//! The tree that a listing shows.

use vstd::prelude::*;

use crate::text::{char_vec, copy_texts, same_texts, texts};

verus! {

/// What an entry is.
#[derive(Debug, Clone, Copy, PartialEq, Eq, Structural)]
pub enum EntryKind {
    File,
    Dir,
    Symlink,
}

/// The place of an entry below the root of the tree: the names on the way down.
#[derive(Debug, PartialEq, Eq)]
pub struct TreePath {
    pub components: Vec<String>,
}

/// Whether `a` stands above `b`, and is not `b` itself.
pub open spec fn is_above(a: Seq<Seq<char>>, b: Seq<Seq<char>>) -> bool {
    a.len() < b.len() && b.take(a.len() as int) == a
}

/// The names between slashes in a text, the empty ones left out.
pub open spec fn split_path(s: Seq<char>) -> Seq<Seq<char>>
    decreases s.len(),
{
    if s.len() == 0 {
        Seq::empty()
    } else if s.last() == '/' {
        split_path(s.drop_last())
    } else {
        let before = split_path(s.drop_last());
        if s.len() == 1 || s[s.len() - 2] == '/' {
            before.push(seq![s.last()])
        } else {
            before.drop_last().push(before.last().push(s.last()))
        }
    }
}

/// Names joined by slashes.
pub open spec fn join_path(components: Seq<Seq<char>>) -> Seq<char>
    decreases components.len(),
{
    if components.len() == 0 {
        Seq::empty()
    } else if components.len() == 1 {
        components[0]
    } else {
        join_path(components.drop_last()) + "/"@ + components.last()
    }
}

impl TreePath {
    /// The names on the way down.
    pub open spec fn view(&self) -> Seq<Seq<char>> {
        texts(self.components@)
    }

    /// The root of the tree.
    pub fn root() -> (r: TreePath)
        ensures
            r@ == Seq::<Seq<char>>::empty(),
    {
        let path = TreePath { components: Vec::new() };
        assert(path@ =~= Seq::empty());
        path
    }

    /// The place with these names on the way down.
    pub fn from_components(components: Vec<String>) -> (r: TreePath)
        ensures
            r@ == texts(components@),
    {
        TreePath { components }
    }

    /// The place that a text with slashes names.
    pub fn parse(text: &str) -> (r: TreePath)
        ensures
            r@ == split_path(text@),
    {
        let chars = char_vec(text);
        let mut components: Vec<String> = Vec::new();
        let mut i: usize = 0;
        assert(chars@.take(0) =~= Seq::empty());
        assert(texts(components@) =~= Seq::empty());
        while i < chars.len()
            invariant
                i <= chars@.len(),
                texts(components@) == split_path(chars@.take(i as int)),
                i > 0 && chars@[i - 1] != '/' ==> components@.len() > 0,
            decreases chars@.len() - i,
        {
            let ghost next = chars@.take(i + 1);
            let ghost before = texts(components@);
            proof {
                assert(next.drop_last() =~= chars@.take(i as int));
                assert(next.last() == chars@[i as int]);
                if i > 0 {
                    assert(next[next.len() - 2] == chars@[i - 1]);
                }
            }
            let c = chars[i];
            if c != '/' {
                if i == 0 || chars[i - 1] == '/' {
                    let mut name = String::new();
                    name.push(c);
                    assert(name@ =~= seq![c]);
                    components.push(name);
                    assert(texts(components@) =~= before.push(seq![c]));
                } else {
                    let mut name = components.pop().unwrap();
                    let ghost old_name = name@;
                    assert(before.last() == old_name);
                    assert(texts(components@) =~= before.drop_last());
                    name.push(c);
                    components.push(name);
                    assert(texts(components@) =~= before.drop_last().push(old_name.push(c)));
                }
            }
            i = i + 1;
        }
        assert(chars@.take(i as int) =~= text@);
        TreePath { components }
    }

    /// The same place once more.
    pub fn copy(&self) -> (r: TreePath)
        ensures
            r@ == self@,
    {
        TreePath { components: copy_texts(&self.components) }
    }

    /// Whether two places are the same.
    pub fn same(&self, other: &TreePath) -> (r: bool)
        ensures
            r == (self@ == other@),
    {
        same_texts(&self.components, &other.components)
    }

    /// How many names lead down.
    pub fn depth(&self) -> (r: usize)
        ensures
            r == self@.len(),
    {
        self.components.len()
    }

    /// Whether this place stands above `other`, and is not `other` itself.
    pub fn is_strict_ancestor_of(&self, other: &TreePath) -> (r: bool)
        ensures
            r == is_above(self@, other@),
    {
        if self.components.len() >= other.components.len() {
            return false;
        }
        let ghost beginning = other@.take(self@.len() as int);
        let mut i: usize = 0;
        while i < self.components.len()
            invariant
                i <= self.components@.len() < other.components@.len(),
                beginning == other@.take(self@.len() as int),
                forall|j: int| 0 <= j < i ==> #[trigger] self@[j] == beginning[j],
            decreases self.components@.len() - i,
        {
            if self.components[i] != other.components[i] {
                assert(self@[i as int] != beginning[i as int]);
                return false;
            }
            assert(self@[i as int] == beginning[i as int]);
            i = i + 1;
        }
        assert(self@ =~= beginning);
        true
    }

    /// The last name, where there is one.
    pub fn name(&self) -> (r: Option<&String>)
        ensures
            match r {
                Some(name) => self@.len() > 0 && name@ == self@.last(),
                None => self@.len() == 0,
            },
    {
        if self.components.len() == 0 {
            None
        } else {
            Some(&self.components[self.components.len() - 1])
        }
    }

    /// The place right above, where this is not the root.
    pub fn parent(&self) -> (r: Option<TreePath>)
        ensures
            match r {
                Some(parent) => self@.len() > 0 && parent@ == self@.drop_last(),
                None => self@.len() == 0,
            },
    {
        if self.components.len() == 0 {
            return None;
        }
        let mut components = copy_texts(&self.components);
        components.truncate(self.components.len() - 1);
        assert(texts(components@) =~= self@.drop_last());
        Some(TreePath { components })
    }

    /// The first `depth` names on the way down.
    pub fn prefix(&self, depth: usize) -> (r: TreePath)
        requires
            depth <= self@.len(),
        ensures
            r@ == self@.take(depth as int),
    {
        let mut components = copy_texts(&self.components);
        components.truncate(depth);
        assert(texts(components@) =~= self@.take(depth as int));
        TreePath { components }
    }

    /// The place of `name` right below.
    pub fn child(&self, name: &str) -> (r: TreePath)
        ensures
            r@ == self@.push(name@),
    {
        let mut components = copy_texts(&self.components);
        components.push(name.to_owned());
        assert(texts(components@) =~= self@.push(name@));
        TreePath { components }
    }

    /// The names joined by slashes.
    pub fn display(&self) -> (r: String)
        ensures
            r@ == join_path(self@),
    {
        let mut text = String::new();
        let mut i: usize = 0;
        assert(self@.take(0) =~= Seq::empty());
        while i < self.components.len()
            invariant
                i <= self.components@.len(),
                text@ == join_path(self@.take(i as int)),
            decreases self.components@.len() - i,
        {
            proof {
                assert(self@.take(i + 1).drop_last() =~= self@.take(i as int));
                assert(self@.take(i + 1).last() == self.components@[i as int]@);
            }
            if i > 0 {
                text.append("/");
            }
            text.append(self.components[i].as_str());
            i = i + 1;
            assert(text@ =~= join_path(self@.take(i as int)));
        }
        assert(self@.take(i as int) =~= self@);
        text
    }
}

/// The places of a list.
pub open spec fn paths_view(paths: Seq<TreePath>) -> Seq<Seq<Seq<char>>> {
    paths.map_values(|path: TreePath| path@)
}

/// An optional place.
pub open spec fn tree_path_view(path: Option<TreePath>) -> Option<Seq<Seq<char>>> {
    match path {
        Some(path) => Some(path@),
        None => None,
    }
}

/// Whether a place is among a list of places.
pub fn contains_path(paths: &Vec<TreePath>, path: &TreePath) -> (r: bool)
    ensures
        r == paths_view(paths@).contains(path@),
{
    let mut i: usize = 0;
    while i < paths.len()
        invariant
            i <= paths@.len(),
            forall|j: int| 0 <= j < i ==> #[trigger] paths_view(paths@)[j] != path@,
        decreases paths@.len() - i,
    {
        if paths[i].same(path) {
            assert(paths_view(paths@)[i as int] == path@);
            return true;
        }
        assert(paths_view(paths@)[i as int] != path@);
        i = i + 1;
    }
    false
}

/// Standing above is transitive.
pub proof fn lemma_above_transitive(a: Seq<Seq<char>>, b: Seq<Seq<char>>, c: Seq<Seq<char>>)
    requires
        is_above(a, b),
        is_above(b, c),
    ensures
        is_above(a, c),
{
    assert(c.take(a.len() as int) =~= b.take(a.len() as int));
}

} // verus!
