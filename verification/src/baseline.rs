//! The tree as it was last seen in the file system.

use std::collections::HashMap;

use vstd::prelude::*;

use crate::fs_path::{FsPath, FsPathView};
use crate::grammar::EntryId;
use crate::tree::{is_above, EntryKind, TreePath};
use crate::undo::FileTime;

verus! {

broadcast use vstd::std_specs::hash::group_hash_axioms;

/// What is shown beside the name of an entry.
#[derive(Debug, Clone, Copy, PartialEq, Eq, Structural)]
pub struct EntryMeta {
    pub size: Option<u64>,
    pub modified: Option<FileTime>,
    /// Whether the contents are in the cloud and have to be fetched.
    pub is_placeholder: bool,
}

/// An entry of the tree.
#[derive(Debug, PartialEq, Eq)]
pub struct BaselineEntry {
    pub id: EntryId,
    pub path: TreePath,
    pub kind: EntryKind,
}

/// What an entry is.
#[verifier::ext_equal]
pub struct EntryView {
    pub id: EntryId,
    pub path: Seq<Seq<char>>,
    pub kind: EntryKind,
}

impl BaselineEntry {
    pub open spec fn view(&self) -> EntryView {
        EntryView { id: self.id, path: self.path@, kind: self.kind }
    }

    /// The same entry once more.
    pub fn copy(&self) -> (r: BaselineEntry)
        ensures
            r@ == self@,
    {
        BaselineEntry { id: self.id, path: self.path.copy(), kind: self.kind }
    }
}

/// The entries of a tree and where each number stands among them.
#[derive(Debug, PartialEq, Eq)]
struct Indexed {
    entries: Vec<BaselineEntry>,
    index: HashMap<u64, usize>,
}

/// The tree as it was last seen: its root, its entries in the order in which
/// they are shown, each with a number of its own, and what is shown beside them.
#[derive(Debug)]
pub struct BaselineTree {
    root: FsPath,
    indexed: Indexed,
    metas: HashMap<u64, EntryMeta>,
}

/// What the tree is.
#[verifier::ext_equal]
pub struct BaselineView {
    pub root: FsPathView,
    pub entries: Seq<EntryView>,
    pub metas: Map<u64, EntryMeta>,
}

/// The first entry with a number.
pub open spec fn find_entry(entries: Seq<EntryView>, id: EntryId) -> Option<EntryView>
    decreases entries.len(),
{
    if entries.len() == 0 {
        None
    } else if entries[0].id == id {
        Some(entries[0])
    } else {
        find_entry(entries.drop_first(), id)
    }
}

/// Whether no number stands twice.
pub open spec fn ids_differ(entries: Seq<EntryView>) -> bool {
    forall|i: int, j: int|
        0 <= i < j < entries.len() ==> (#[trigger] entries[i]).id != (#[trigger] entries[j]).id
}

/// An entry is found by its number.
pub proof fn lemma_find_entry(entries: Seq<EntryView>, i: int)
    requires
        ids_differ(entries),
        0 <= i < entries.len(),
    ensures
        find_entry(entries, entries[i].id) == Some(entries[i]),
    decreases entries.len(),
{
    if i > 0 {
        assert(entries[0].id != entries[i].id);
        let rest = entries.drop_first();
        assert(rest[i - 1] == entries[i]);
        assert(ids_differ(rest)) by {
            assert forall|j: int, k: int| 0 <= j < k < rest.len() implies (#[trigger] rest[j]).id
                != (#[trigger] rest[k]).id by {
                assert(rest[j] == entries[j + 1] && rest[k] == entries[k + 1]);
            }
        }
        lemma_find_entry(rest, i - 1);
    }
}

/// Nothing is found under a number that no entry has.
pub proof fn lemma_find_nothing(entries: Seq<EntryView>, id: EntryId)
    requires
        forall|i: int| 0 <= i < entries.len() ==> (#[trigger] entries[i]).id != id,
    ensures
        find_entry(entries, id) is None,
    decreases entries.len(),
{
    if entries.len() > 0 {
        assert(entries[0].id != id);
        let rest = entries.drop_first();
        assert forall|i: int| 0 <= i < rest.len() implies (#[trigger] rest[i]).id != id by {
            assert(rest[i] == entries[i + 1]);
        }
        lemma_find_nothing(rest, id);
    }
}

/// What is found is an entry with that number.
pub proof fn lemma_found_entry(entries: Seq<EntryView>, id: EntryId)
    ensures
        find_entry(entries, id) matches Some(entry) ==> entry.id == id && entries.contains(entry),
    decreases entries.len(),
{
    if entries.len() > 0 {
        let rest = entries.drop_first();
        lemma_found_entry(rest, id);
        if entries[0].id != id {
            if let Some(entry) = find_entry(entries, id) {
                let i = choose|i: int| 0 <= i < rest.len() && rest[i] == entry;
                assert(entries[i + 1] == entry);
            }
        }
    }
}

impl Indexed {
    /// The numbers differ, and the index knows where each of them stands.
    spec fn wf(self) -> bool {
        &&& forall|i: int|
            0 <= i < self.entries@.len() ==> self.index@.contains_key(
                (#[trigger] self.entries@[i]).id.0,
            ) && self.index@[self.entries@[i].id.0] == i
        &&& forall|id: u64| #[trigger]
            self.index@.contains_key(id) ==> self.index@[id] < self.entries@.len()
                && self.entries@[self.index@[id] as int].id.0 == id
    }

    /// The entries.
    spec fn entries(self) -> Seq<EntryView> {
        entries_view(self.entries@)
    }

    /// The numbers of the entries differ.
    proof fn lemma_ids_differ(self)
        requires
            self.wf(),
        ensures
            ids_differ(self.entries()),
    {
        let entries = self.entries();
        assert forall|i: int, j: int| 0 <= i < j < entries.len() implies (#[trigger] entries[i]).id
            != (#[trigger] entries[j]).id by {
            assert(entries[i].id == self.entries@[i].id);
            assert(entries[j].id == self.entries@[j].id);
            assert(self.index@[self.entries@[i].id.0] == i);
            assert(self.index@[self.entries@[j].id.0] == j);
        }
    }

    /// No number is known that no entry has.
    proof fn lemma_unknown(self, id: EntryId)
        requires
            self.wf(),
            !self.index@.contains_key(id.0),
        ensures
            find_entry(self.entries(), id) is None,
    {
        let entries = self.entries();
        assert forall|i: int| 0 <= i < entries.len() implies (#[trigger] entries[i]).id != id by {
            assert(entries[i].id == self.entries@[i].id);
            assert(self.index@.contains_key(self.entries@[i].id.0));
        }
        lemma_find_nothing(entries, id);
    }

    /// A known number is that of an entry.
    proof fn lemma_known(self, id: EntryId)
        requires
            self.wf(),
            self.index@.contains_key(id.0),
        ensures
            find_entry(self.entries(), id) == Some(self.entries()[self.index@[id.0] as int]),
    {
        self.lemma_ids_differ();
        let i = self.index@[id.0] as int;
        assert(self.entries()[i].id == id);
        lemma_find_entry(self.entries(), i);
    }

    /// No entries.
    fn empty() -> (r: Indexed)
        ensures
            r.wf(),
            r.entries() == Seq::<EntryView>::empty(),
    {
        let none = Indexed { entries: Vec::new(), index: HashMap::new() };
        assert(none.entries() =~= Seq::empty());
        none
    }

    /// Adds an entry after the others, unless its number is taken.
    fn insert(&mut self, entry: BaselineEntry) -> (r: bool)
        requires
            old(self).wf(),
        ensures
            final(self).wf(),
            r == (find_entry(old(self).entries(), entry.id) is None),
            final(self).entries() == (if r {
                old(self).entries().push(entry@)
            } else {
                old(self).entries()
            }),
    {
        if self.index.contains_key(&entry.id.0) {
            proof {
                self.lemma_known(entry.id);
            }
            return false;
        }
        proof {
            self.lemma_unknown(entry.id);
        }
        let ghost before = *self;
        let position: usize = self.entries.len();
        self.index.insert(entry.id.0, position);
        self.entries.push(entry);
        proof {
            assert(self.entries() =~= before.entries().push(entry@));
            assert forall|i: int| 0 <= i < self.entries@.len() implies self.index@.contains_key(
                (#[trigger] self.entries@[i]).id.0,
            ) && self.index@[self.entries@[i].id.0] == i by {
                if i < before.entries@.len() {
                    assert(self.entries@[i] == before.entries@[i]);
                    assert(before.index@.contains_key(before.entries@[i].id.0));
                }
            }
        }
        true
    }
}

/// What entries are.
pub open spec fn entries_view(entries: Seq<BaselineEntry>) -> Seq<EntryView> {
    entries.map_values(|entry: BaselineEntry| entry@)
}

impl BaselineTree {
    /// What the tree is.
    pub closed spec fn view(&self) -> BaselineView {
        BaselineView {
            root: self.root@,
            entries: self.indexed.entries(),
            metas: self.metas@,
        }
    }

    #[verifier::type_invariant]
    spec fn wf(self) -> bool {
        self.indexed.wf()
    }

    /// A tree without entries.
    pub fn new(root: FsPath) -> (r: BaselineTree)
        ensures
            r@.root == root@,
            r@.entries == Seq::<EntryView>::empty(),
            r@.metas == Map::<u64, EntryMeta>::empty(),
    {
        BaselineTree { root, indexed: Indexed::empty(), metas: HashMap::new() }
    }

    /// The root of the tree.
    pub fn root(&self) -> (r: &FsPath)
        ensures
            r@ == self@.root,
    {
        &self.root
    }

    /// The entries, in the order in which they are shown.
    pub fn entries(&self) -> (r: &Vec<BaselineEntry>)
        ensures
            entries_view(r@) == self@.entries,
            ids_differ(self@.entries),
    {
        proof {
            use_type_invariant(self);
            self.indexed.lemma_ids_differ();
        }
        &self.indexed.entries
    }

    /// The entry with a number.
    pub fn get(&self, id: EntryId) -> (r: Option<&BaselineEntry>)
        ensures
            match r {
                Some(entry) => find_entry(self@.entries, id) == Some(entry@),
                None => find_entry(self@.entries, id) is None,
            },
    {
        proof {
            use_type_invariant(self);
        }
        match self.indexed.index.get(&id.0) {
            Some(i) => {
                proof {
                    self.indexed.lemma_known(id);
                }
                Some(&self.indexed.entries[*i])
            },
            None => {
                proof {
                    self.indexed.lemma_unknown(id);
                }
                None
            },
        }
    }

    /// What is shown beside the entry with a number.
    pub fn meta(&self, id: EntryId) -> (r: Option<EntryMeta>)
        ensures
            r == meta_of(self@.metas, id),
    {
        match self.metas.get(&id.0) {
            Some(meta) => Some(*meta),
            None => None,
        }
    }

    /// Adds an entry after the others, unless its number is taken.
    pub fn insert(&mut self, entry: BaselineEntry) -> (r: bool)
        ensures
            r == (find_entry(old(self)@.entries, entry.id) is None),
            final(self)@ == (BaselineView {
                entries: if r {
                    old(self)@.entries.push(entry@)
                } else {
                    old(self)@.entries
                },
                ..old(self)@
            }),
    {
        proof {
            use_type_invariant(&*self);
        }
        let mut indexed = Indexed::empty();
        std::mem::swap(&mut indexed, &mut self.indexed);
        let inserted = indexed.insert(entry);
        self.indexed = indexed;
        inserted
    }

    /// Adds what is shown beside the entry with a number.
    pub fn set_meta(&mut self, id: EntryId, meta: EntryMeta)
        ensures
            final(self)@ == (BaselineView {
                metas: old(self)@.metas.insert(id.0, meta),
                ..old(self)@
            }),
    {
        proof {
            use_type_invariant(&*self);
        }
        let mut metas: HashMap<u64, EntryMeta> = HashMap::new();
        std::mem::swap(&mut metas, &mut self.metas);
        metas.insert(id.0, meta);
        self.metas = metas;
    }

    /// Whether two trees have the same root and the same entries in the same
    /// order; what is shown beside them does not count.
    pub fn same_structure(&self, other: &BaselineTree, same_root: bool) -> (r: bool)
        ensures
            r == (same_root && self@.entries == other@.entries),
    {
        if !same_root {
            return false;
        }
        let mine = self.entries();
        let theirs = other.entries();
        if mine.len() != theirs.len() {
            assert(self@.entries.len() != other@.entries.len());
            return false;
        }
        let mut i: usize = 0;
        while i < mine.len()
            invariant
                i <= mine@.len() == theirs@.len(),
                entries_view(mine@) == self@.entries,
                entries_view(theirs@) == other@.entries,
                forall|j: int| 0 <= j < i ==> (#[trigger] mine@[j])@ == theirs@[j]@,
            decreases mine@.len() - i,
        {
            if mine[i].id != theirs[i].id || mine[i].kind != theirs[i].kind || !mine[i].path.same(
                &theirs[i].path,
            ) {
                assert(self@.entries[i as int] != other@.entries[i as int]);
                return false;
            }
            i = i + 1;
        }
        assert(self@.entries =~= other@.entries);
        true
    }
}

/// What is shown beside the entry with a number.
pub open spec fn meta_of(metas: Map<u64, EntryMeta>, id: EntryId) -> Option<EntryMeta> {
    if metas.contains_key(id.0) {
        Some(metas[id.0])
    } else {
        None
    }
}

/// Whether entries stand as a tree is walked: what stands above an entry comes
/// before it, and everything below an entry follows it without a gap.
pub open spec fn walked(entries: Seq<EntryView>) -> bool {
    &&& forall|i: int, j: int|
        0 <= i < j < entries.len() ==> !is_above(
            (#[trigger] entries[j]).path,
            (#[trigger] entries[i]).path,
        )
    &&& forall|i: int, j: int, k: int|
        0 <= i < k < j < entries.len() && is_above(
            (#[trigger] entries[i]).path,
            (#[trigger] entries[j]).path,
        ) ==> is_above(entries[i].path, (#[trigger] entries[k]).path)
}

} // verus!
