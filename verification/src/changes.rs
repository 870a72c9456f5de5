//! Gathering news of changes in the file system before they are seen to.

use vstd::prelude::*;

use crate::fs_path::{FsPath, FsPathView};
use crate::notices::{message, Message, MessageKind};
use crate::pane::PaneId;
use crate::picker::RootKey;
use crate::transfer_flow::fs_paths_view;

verus! {

/// The paths that changed for one pane or one root.
#[derive(Debug)]
pub struct ChangeGroup {
    pub key: u64,
    pub paths: Vec<FsPath>,
}

impl ChangeGroup {
    /// The paths that changed.
    pub open spec fn view(&self) -> Set<FsPathView> {
        fs_paths_view(self.paths@).to_set()
    }
}

/// The paths that changed, by what they changed for.
pub open spec fn groups_map(groups: Seq<ChangeGroup>) -> Map<u64, Set<FsPathView>>
    decreases groups.len(),
{
    if groups.len() == 0 {
        Map::empty()
    } else {
        groups_map(groups.drop_last()).insert(groups.last().key, groups.last()@)
    }
}

/// Whether groups stand in the order of their keys, each key once.
pub open spec fn keys_ascend(groups: Seq<ChangeGroup>) -> bool {
    forall|i: int, j: int|
        0 <= i < j < groups.len() ==> (#[trigger] groups[i]).key < (#[trigger] groups[j]).key
}

/// The paths that are known to have changed for a key.
pub open spec fn changed_for(changes: Map<u64, Set<FsPathView>>, key: u64) -> Set<FsPathView> {
    if changes.dom().contains(key) {
        changes[key]
    } else {
        Set::empty()
    }
}

/// The changes once more paths have changed for a key.
pub open spec fn with_changes(
    changes: Map<u64, Set<FsPathView>>,
    key: u64,
    paths: Set<FsPathView>,
) -> Map<u64, Set<FsPathView>> {
    changes.insert(key, changed_for(changes, key).union(paths))
}

/// Keys that stand in no group are not known.
proof fn lemma_groups_map(groups: Seq<ChangeGroup>)
    ensures
        forall|key: u64|
            #[trigger] groups_map(groups).dom().contains(key) <==> exists|i: int|
                0 <= i < groups.len() && (#[trigger] groups[i]).key == key,
    decreases groups.len(),
{
    if groups.len() > 0 {
        lemma_groups_map(groups.drop_last());
        assert forall|key: u64|
            groups_map(groups).dom().contains(key) <==> exists|i: int|
                0 <= i < groups.len() && (#[trigger] groups[i]).key == key by {
            let rest = groups.drop_last();
            assert(groups_map(rest).dom().contains(key) <==> exists|i: int|
                0 <= i < rest.len() && (#[trigger] rest[i]).key == key);
            if groups_map(rest).dom().contains(key) {
                let i = choose|i: int| 0 <= i < rest.len() && (#[trigger] rest[i]).key == key;
                assert(groups[i].key == key);
            }
            if groups.last().key == key {
                assert(groups[groups.len() - 1].key == key);
            }
            if exists|i: int| 0 <= i < groups.len() && (#[trigger] groups[i]).key == key {
                let i = choose|i: int| 0 <= i < groups.len() && (#[trigger] groups[i]).key == key;
                if i < groups.len() - 1 {
                    assert(rest[i].key == key);
                }
            }
        }
    }
}

/// The paths of two lists, each once where the first holds each once.
fn joined_paths(first: Vec<FsPath>, second: &Vec<FsPath>) -> (r: Vec<FsPath>)
    ensures
        fs_paths_view(r@).to_set() == fs_paths_view(first@).to_set().union(
            fs_paths_view(second@).to_set(),
        ),
        fs_paths_view(first@).no_duplicates() ==> fs_paths_view(r@).no_duplicates(),
{
    let ghost start = fs_paths_view(first@);
    let ghost more = fs_paths_view(second@);
    let mut paths = first;
    let mut i: usize = 0;
    assert(more.take(0).to_set() =~= Set::empty());
    assert(start.to_set().union(Set::empty()) =~= start.to_set());
    while i < second.len()
        invariant
            i <= second.len(),
            more == fs_paths_view(second@),
            fs_paths_view(paths@).to_set() == start.to_set().union(more.take(i as int).to_set()),
            start.no_duplicates() ==> fs_paths_view(paths@).no_duplicates(),
        decreases second.len() - i,
    {
        let mut known = false;
        let mut k: usize = 0;
        while k < paths.len()
            invariant
                k <= paths.len(),
                i < second.len(),
                known == exists|n: int|
                    0 <= n < k && (#[trigger] fs_paths_view(paths@)[n]) == second@[i as int]@,
            decreases paths.len() - k,
        {
            assert(fs_paths_view(paths@)[k as int] == paths@[k as int]@);
            if paths[k].same(&second[i]) {
                known = true;
            }
            k = k + 1;
        }
        let ghost before = fs_paths_view(paths@);
        let ghost path = second@[i as int]@;
        assert(more[i as int] == path);
        assert(more.take(i + 1) =~= more.take(i as int).push(path));
        proof {
            more.take(i as int).lemma_push_to_set_commute(path);
        }
        if !known {
            paths.push(second[i].copy());
            assert(fs_paths_view(paths@) =~= before.push(path));
            proof {
                before.lemma_push_to_set_commute(path);
            }
        } else {
            let ghost n = choose|n: int| 0 <= n < before.len() && (#[trigger] before[n]) == path;
            assert(before.contains(path));
            assert(before.to_set().contains(path));
        }
        assert(fs_paths_view(paths@).to_set() =~= start.to_set().union(
            more.take(i + 1).to_set(),
        ));
        i = i + 1;
    }
    assert(more.take(more.len() as int) =~= more);
    paths
}

/// Puts more paths into the group with a key.
fn with_group(groups: Vec<ChangeGroup>, key: u64, paths: &Vec<FsPath>) -> (r: Vec<ChangeGroup>)
    requires
        keys_ascend(groups@),
    ensures
        keys_ascend(r@),
        groups_map(r@) == with_changes(
            groups_map(groups@),
            key,
            fs_paths_view(paths@).to_set(),
        ),
{
    let ghost all = groups@;
    let ghost added = fs_paths_view(paths@).to_set();
    let mut out: Vec<ChangeGroup> = Vec::new();
    let mut placed = false;
    assert(all.take(0) =~= Seq::empty());
    for group in it: groups
        invariant
            it.seq() == all,
            keys_ascend(all),
            added == fs_paths_view(paths@).to_set(),
            keys_ascend(out@),
            out@.len() > 0 ==> it.index() > 0 && (out@.last().key == all[it.index() - 1].key),
            placed ==> groups_map(out@) == with_changes(
                groups_map(all.take(it.index() as int)),
                key,
                added,
            ) && (exists|i: int| 0 <= i < out@.len() && (#[trigger] out@[i]).key == key),
            !placed ==> groups_map(out@) == groups_map(all.take(it.index() as int)) && (forall|
                i: int,
            |
                0 <= i < out@.len() ==> (#[trigger] out@[i]).key < key),
            it.index() > 0 ==> out@.len() > 0,
    {
        let ghost n = it.index() as int;
        let ghost here = all.take(n);
        assert(all.take(n + 1).drop_last() =~= here);
        assert(all.take(n + 1).last() == group);
        proof {
            lemma_groups_map(here);
            assert(forall|i: int| 0 <= i < here.len() ==> (#[trigger] here[i]).key < group.key);
            assert(forall|i: int| 0 <= i < out@.len() ==> (#[trigger] out@[i]).key < group.key) by {
                if out@.len() > 0 {
                    assert(all[n - 1].key < all[n].key);
                    assert forall|i: int| 0 <= i < out@.len() implies (#[trigger] out@[i]).key
                        < group.key by {
                        if i < out@.len() - 1 {
                            assert(out@[i].key < out@[out@.len() - 1].key);
                        }
                    }
                }
            }
        }
        let ghost before = out@;
        if placed {
            out.push(group);
            assert(out@.drop_last() =~= before);
            let ghost i = choose|i: int| 0 <= i < before.len() && (#[trigger] before[i]).key == key;
            assert(before[i].key < group.key);
            assert(out@[i].key == key);
            assert(groups_map(out@) =~= with_changes(groups_map(all.take(n + 1)), key, added));
        } else if group.key == key {
            let ghost old_paths = group@;
            let merged = ChangeGroup { key, paths: joined_paths(group.paths, paths) };
            out.push(merged);
            assert(out@.drop_last() =~= before);
            assert(out@[before.len() as int].key == key);
            assert(groups_map(out@) =~= with_changes(groups_map(all.take(n + 1)), key, added));
            placed = true;
        } else if key < group.key {
            let fresh = ChangeGroup { key, paths: joined_paths(Vec::new(), paths) };
            assert(fresh@ =~= added);
            assert(!groups_map(before).dom().contains(key)) by {
                lemma_groups_map(before);
            }
            assert(Set::empty().union(added) =~= added);
            out.push(fresh);
            assert(out@.drop_last() =~= before);
            let ghost between = out@;
            assert(groups_map(between) == groups_map(before).insert(key, added));
            out.push(group);
            assert(out@.drop_last() =~= between);
            assert(out@[before.len() as int].key == key);
            assert(groups_map(out@) =~= with_changes(groups_map(all.take(n + 1)), key, added));
            placed = true;
        } else {
            out.push(group);
            assert(out@.drop_last() =~= before);
        }
    }
    assert(all.take(all.len() as int) =~= all);
    if !placed {
        let ghost before = out@;
        assert(!groups_map(before).dom().contains(key)) by {
            lemma_groups_map(before);
        }
        assert(Set::empty().union(added) =~= added);
        let fresh = ChangeGroup { key, paths: joined_paths(Vec::new(), paths) };
        assert(fresh@ =~= added);
        out.push(fresh);
        assert(out@.drop_last() =~= before);
        assert(groups_map(out@) =~= with_changes(groups_map(all), key, added));
    }
    out
}

/// The changes that are worth a look: those of at least one path.
pub open spec fn seen_to(changes: Map<u64, Set<FsPathView>>) -> Map<u64, Set<FsPathView>> {
    Map::new(
        |key: u64| changes.dom().contains(key) && changes[key] != Set::<FsPathView>::empty(),
        |key: u64| changes[key],
    )
}

/// The paths that changed, by pane or by root.
#[derive(Debug)]
pub struct ChangeGroups {
    groups: Vec<ChangeGroup>,
}

impl ChangeGroups {
    /// The paths that changed, by what they changed for.
    pub closed spec fn view(&self) -> Map<u64, Set<FsPathView>> {
        groups_map(self.groups@)
    }

    #[verifier::type_invariant]
    spec fn wf(self) -> bool {
        keys_ascend(self.groups@)
    }

    /// Nothing changed.
    pub fn new() -> (r: ChangeGroups)
        ensures
            r@ == Map::<u64, Set<FsPathView>>::empty(),
    {
        ChangeGroups { groups: Vec::new() }
    }

    /// Takes paths that changed for a key.
    pub fn extend(&mut self, key: u64, paths: &Vec<FsPath>)
        ensures
            final(self)@ == with_changes(old(self)@, key, fs_paths_view(paths@).to_set()),
    {
        proof {
            use_type_invariant(&*self);
        }
        let mut groups: Vec<ChangeGroup> = Vec::new();
        std::mem::swap(&mut groups, &mut self.groups);
        self.groups = with_group(groups, key, paths);
    }

    /// Gives the changes that had to wait, in the order of their keys, and forgets
    /// them.
    pub fn take_waiting(&mut self) -> (r: Vec<ChangeGroup>)
        ensures
            groups_map(r@) == seen_to(old(self)@),
            keys_ascend(r@),
            final(self)@ == Map::<u64, Set<FsPathView>>::empty(),
    {
        proof {
            use_type_invariant(&*self);
        }
        let mut groups: Vec<ChangeGroup> = Vec::new();
        std::mem::swap(&mut groups, &mut self.groups);
        let ghost all = groups@;
        let mut waiting: Vec<ChangeGroup> = Vec::new();
        assert(groups_map(waiting@) =~= seen_to(groups_map(all.take(0))));
        for group in it: groups
            invariant
                it.seq() == all,
                keys_ascend(all),
                groups_map(waiting@) == seen_to(groups_map(all.take(it.index() as int))),
                keys_ascend(waiting@),
                forall|i: int|
                    0 <= i < waiting@.len() ==> exists|k: int|
                        0 <= k < it.index() && (#[trigger] all[k]).key == (#[trigger] waiting@[i]).key,
        {
            let ghost n = it.index() as int;
            let ghost before = waiting@;
            proof {
                assert(all.take(n + 1).drop_last() =~= all.take(n));
                assert(all.take(n + 1).last() == group);
                lemma_groups_map(all.take(n));
            }
            if group.paths.len() > 0 {
                proof {
                    assert(fs_paths_view(group.paths@)[0] == group.paths@[0]@);
                    assert(group@.contains(group.paths@[0]@));
                    assert(group@ != Set::<FsPathView>::empty());
                }
                waiting.push(group);
                proof {
                    assert(waiting@.drop_last() =~= before);
                    assert(all[n].key == waiting@[before.len() as int].key);
                    assert(groups_map(waiting@) =~= seen_to(groups_map(all.take(n + 1))));
                }
            } else {
                assert(group@ =~= Set::<FsPathView>::empty());
                assert(groups_map(waiting@) =~= seen_to(groups_map(all.take(n + 1))));
            }
        }
        assert(all.take(all.len() as int) =~= all);
        waiting
    }

    /// Gives the changes in the order of their keys.
    pub fn into_groups(self) -> (r: Vec<ChangeGroup>)
        ensures
            groups_map(r@) == self@,
            keys_ascend(r@),
    {
        proof {
            use_type_invariant(&self);
        }
        self.groups
    }
}

/// Something that waits to be seen to.
#[derive(Debug)]
pub enum Queued<E> {
    /// Paths changed in a pane.
    Changed { pane: PaneId, paths: Vec<FsPath> },
    Other(E),
}

/// The changes among what waits, gathered by pane.
pub open spec fn gathered<E>(
    start: Map<u64, Set<FsPathView>>,
    queued: Seq<Queued<E>>,
) -> Map<u64, Set<FsPathView>>
    decreases queued.len(),
{
    if queued.len() == 0 {
        start
    } else {
        let before = gathered(start, queued.drop_last());
        match queued.last() {
            Queued::Changed { pane, paths } => with_changes(
                before,
                pane.0,
                fs_paths_view(paths@).to_set(),
            ),
            Queued::Other(_) => before,
        }
    }
}

/// What else waits, in order.
pub open spec fn others<E>(queued: Seq<Queued<E>>) -> Seq<E>
    decreases queued.len(),
{
    if queued.len() == 0 {
        Seq::empty()
    } else {
        match queued.last() {
            Queued::Changed { .. } => others(queued.drop_last()),
            Queued::Other(event) => others(queued.drop_last()).push(event),
        }
    }
}

/// Gathers the changes among what waits, beginning with one change; the rest goes on
/// waiting in order.
pub fn coalesce_changes<E>(pane: PaneId, paths: &Vec<FsPath>, queued: Vec<Queued<E>>) -> (r: (
    ChangeGroups,
    Vec<E>,
))
    ensures
        r.0@ == gathered(
            with_changes(Map::empty(), pane.0, fs_paths_view(paths@).to_set()),
            queued@,
        ),
        r.1@ == others(queued@),
{
    let ghost all = queued@;
    let ghost start = with_changes(Map::empty(), pane.0, fs_paths_view(paths@).to_set());
    let mut groups = ChangeGroups::new();
    groups.extend(pane.0, paths);
    let mut rest: Vec<E> = Vec::new();
    assert(all.take(0) =~= Seq::empty());
    for event in it: queued
        invariant
            it.seq() == all,
            groups@ == gathered(start, all.take(it.index() as int)),
            rest@ == others(all.take(it.index() as int)),
    {
        let ghost n = it.index() as int;
        assert(all.take(n + 1).drop_last() =~= all.take(n));
        assert(all.take(n + 1).last() == event);
        match event {
            Queued::Changed { pane, paths } => {
                groups.extend(pane.0, &paths);
            },
            Queued::Other(event) => {
                rest.push(event);
            },
        }
    }
    assert(all.take(all.len() as int) =~= all);
    (groups, rest)
}

/// The root that a pane shows.
pub open spec fn root_shown(roots: Seq<(PaneId, RootKey)>, pane: u64) -> Option<RootKey>
    decreases roots.len(),
{
    if roots.len() == 0 {
        None
    } else if roots[0].0.0 == pane {
        Some(roots[0].1)
    } else {
        root_shown(roots.drop_first(), pane)
    }
}

/// The root that a pane shows.
fn root_of_pane(roots: &Vec<(PaneId, RootKey)>, pane: u64) -> (r: Option<RootKey>)
    ensures
        r == root_shown(roots@, pane),
{
    let mut i: usize = 0;
    assert(roots@.skip(0) =~= roots@);
    while i < roots.len()
        invariant
            i <= roots.len(),
            root_shown(roots@, pane) == root_shown(roots@.skip(i as int), pane),
        decreases roots.len() - i,
    {
        assert(roots@.skip(i as int)[0] == roots@[i as int]);
        assert(roots@.skip(i as int).drop_first() =~= roots@.skip(i + 1));
        if roots[i].0.0 == pane {
            return Some(roots[i].1);
        }
        i = i + 1;
    }
    None
}

/// The changes of panes gathered by the root that each shows; panes that are gone
/// are left out.
pub open spec fn by_root(
    groups: Seq<ChangeGroup>,
    roots: Seq<(PaneId, RootKey)>,
) -> Map<u64, Set<FsPathView>>
    decreases groups.len(),
{
    if groups.len() == 0 {
        Map::empty()
    } else {
        let before = by_root(groups.drop_last(), roots);
        match root_shown(roots, groups.last().key) {
            Some(root) => with_changes(before, root.0, groups.last()@),
            None => before,
        }
    }
}

/// Gathers the changes of panes by the root that each shows.
pub fn changes_by_root(groups: &Vec<ChangeGroup>, roots: &Vec<(PaneId, RootKey)>) -> (r:
    ChangeGroups)
    ensures
        r@ == by_root(groups@, roots@),
{
    let mut out = ChangeGroups::new();
    let mut i: usize = 0;
    assert(groups@.take(0) =~= Seq::empty());
    while i < groups.len()
        invariant
            i <= groups.len(),
            out@ == by_root(groups@.take(i as int), roots@),
        decreases groups.len() - i,
    {
        assert(groups@.take(i + 1).drop_last() =~= groups@.take(i as int));
        assert(groups@.take(i + 1).last() == groups@[i as int]);
        if let Some(root) = root_of_pane(roots, groups[i].key) {
            out.extend(root.0, &groups[i].paths);
        }
        i = i + 1;
    }
    assert(groups@.take(groups@.len() as int) =~= groups@);
    out
}

/// Takes the news that a folder is no longer watched. A user is told once.
pub fn on_watch_degraded(degraded: &mut bool, error: &str) -> (r: Option<Message>)
    ensures
        *final(degraded),
        match r {
            Some(told) => !*old(degraded) && told@ == message(
                MessageKind::Warn,
                "File watching stopped and will retry automatically: "@ + error@,
            ),
            None => *old(degraded),
        },
{
    if *degraded {
        return None;
    }
    *degraded = true;
    let text = "File watching stopped and will retry automatically: ".to_owned().concat(error);
    Some(Message::new(MessageKind::Warn, text.as_str()))
}

/// What a user is told where a transfer that waited for a word is forgotten because
/// files changed.
pub fn transfer_forgotten_message() -> (r: Message)
    ensures
        r@ == message(
            MessageKind::Warn,
            "Transfer was cancelled because files changed externally. Review the changes and try again."@,
        ),
{
    Message::new(
        MessageKind::Warn,
        "Transfer was cancelled because files changed externally. Review the changes and try again.",
    )
}

/// No news of a change is lost: what changed in a pane is among what is gathered for
/// it.
pub proof fn no_change_is_lost<E>(
    start: Map<u64, Set<FsPathView>>,
    queued: Seq<Queued<E>>,
    i: int,
    path: FsPathView,
)
    requires
        0 <= i < queued.len(),
        queued[i] matches Queued::Changed { paths, .. } && fs_paths_view(paths@).contains(path),
    ensures
        queued[i] matches Queued::Changed { pane, .. } && gathered(start, queued).dom().contains(
            pane.0,
        ) && gathered(start, queued)[pane.0].contains(path),
    decreases queued.len(),
{
    if i < queued.len() - 1 {
        assert(queued.drop_last()[i] == queued[i]);
        no_change_is_lost(start, queued.drop_last(), i, path);
    } else {
        assert(queued.last() == queued[i]);
    }
}

/// A change that had to wait is handed out for what it changed for.
pub proof fn waiting_changes_are_handed_out(
    changes: Map<u64, Set<FsPathView>>,
    key: u64,
    paths: Set<FsPathView>,
    path: FsPathView,
)
    requires
        paths.contains(path),
    ensures
        ({
            let handed_out = seen_to(with_changes(changes, key, paths));
            handed_out.dom().contains(key) && handed_out[key].contains(path)
        }),
{
    let now = with_changes(changes, key, paths);
    assert(now[key].contains(path));
    assert(now[key] != Set::<FsPathView>::empty());
}

} // verus!
