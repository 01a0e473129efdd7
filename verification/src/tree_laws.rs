//! What holds of every path that is set or removed in a tree.

use crate::engine;
use crate::oid::Oid;
use crate::store;
use crate::store::{AskV, Change, Entry, Known, QueryV};
use vstd::prelude::*;

verus! {

/// What each tree holds, by name.
pub type Trees = spec_fn(Oid) -> Map<Seq<char>, Entry>;

/// What a tree holds; no tree holds nothing.
pub open spec fn held(m: Trees, tree: Option<Oid>) -> Map<Seq<char>, Entry> {
    match tree {
        Some(t) => m(t),
        None => Map::empty(),
    }
}

/// A tree's entries after a change to one of them.
pub open spec fn changed(
    h: Map<Seq<char>, Entry>,
    name: Seq<char>,
    change: Change,
) -> Map<Seq<char>, Entry> {
    match change {
        Change::Keep => h,
        Change::Put { id, mode } => h.insert(name, Entry { id, mode, dir: mode == engine::DIR }),
        Change::Remove => h.remove(name),
    }
}

/// The object store reads and writes trees as `m` says: an entry is the one that
/// the tree holds, a tree written with one entry changed holds the others too, and it
/// is said to be empty where it is.
pub open spec fn keeps_trees(k: Known, m: Trees) -> bool {
    &&& forall|tree: Option<Oid>, name: Seq<char>| #[trigger]
        store::entry_in(k, QueryV::Entry { tree, name }) matches AskV::Have(e) ==> e == if held(
            m,
            tree,
        ).contains_key(name) {
            Some(held(m, tree)[name])
        } else {
            None
        }
    &&& forall|tree: Option<Oid>, name: Seq<char>, change: Change| #[trigger]
        store::tree_in(k, QueryV::Rebuild { tree, name, change }) matches AskV::Have((id, empty))
            ==> m(id) == changed(held(m, tree), name, change) && empty == (m(id) == Map::<
            Seq<char>,
            Entry,
        >::empty())
}

/// The entry at the path `names[i..]`.
pub open spec fn entry_at(m: Trees, tree: Option<Oid>, names: Seq<Seq<char>>, i: int) -> Option<
    Entry,
>
    decreases names.len() - i,
{
    if i < 0 || i >= names.len() || !held(m, tree).contains_key(names[i]) {
        None
    } else {
        let e = held(m, tree)[names[i]];
        if i + 1 == names.len() {
            Some(e)
        } else if e.dir {
            entry_at(m, Some(e.id), names, i + 1)
        } else {
            None
        }
    }
}

/// The paths part ways at some name: neither leads through the other.
pub open spec fn diverge(a: Seq<Seq<char>>, b: Seq<Seq<char>>, i: int) -> bool
    decreases a.len() - i,
{
    i < a.len() && i < b.len() && (a[i] != b[i] || diverge(a, b, i + 1))
}

proof fn lemma_reads_back(
    k: Known,
    m: Trees,
    tree: Option<Oid>,
    names: Seq<Seq<char>>,
    i: int,
    entry: Option<(Oid, i32)>,
)
    requires
        keeps_trees(k, m),
        0 <= i < names.len(),
    ensures
        engine::updated_in(k, tree, names, i, entry) matches AskV::Have((t, _)) ==> entry_at(
            m,
            Some(t),
            names,
            i,
        ) == match entry {
            Some((id, mode)) => Some(Entry { id, mode, dir: mode == engine::DIR }),
            None => None,
        },
    decreases names.len() - i,
{
    if i + 1 < names.len() {
        if let AskV::Have(there) = store::entry_in(k, QueryV::Entry { tree, name: names[i] }) {
            let sub = match there {
                Some(e) => Some(e.id),
                None => None,
            };
            lemma_reads_back(k, m, sub, names, i + 1, entry);
        }
    }
}

pub proof fn lemma_frame(
    k: Known,
    m: Trees,
    tree: Option<Oid>,
    names: Seq<Seq<char>>,
    i: int,
    entry: Option<(Oid, i32)>,
    other: Seq<Seq<char>>,
)
    requires
        keeps_trees(k, m),
        0 <= i < names.len(),
        diverge(names, other, i),
    ensures
        engine::updated_in(k, tree, names, i, entry) matches AskV::Have((t, _)) ==> entry_at(
            m,
            Some(t),
            other,
            i,
        ) == entry_at(m, tree, other, i),
    decreases names.len() - i,
{
    if names[i] == other[i] {
        assert(diverge(names, other, i + 1));
        assert(i + 1 < other.len());
    }
    if i + 1 < names.len() {
        if let AskV::Have(there) = store::entry_in(k, QueryV::Entry { tree, name: names[i] }) {
            let sub = match there {
                Some(e) => Some(e.id),
                None => None,
            };
            if names[i] == other[i] {
                lemma_frame(k, m, sub, names, i + 1, entry, other);
                if let AskV::Have((id, empty)) = engine::updated_in(k, sub, names, i + 1, entry) {
                    if entry is None && empty {
                        lemma_empty(k, m, sub, names, i + 1, entry);
                        assert(entry_at(m, Some(id), other, i + 1) is None);
                    }
                    assert(entry_at(m, sub, other, i + 1) == entry_at(m, Some(id), other, i + 1));
                    if there is None {
                        assert(entry_at(m, sub, other, i + 1) is None);
                    }
                }
            }
        }
    }
}

/// A tree that is said to be empty is.
proof fn lemma_empty(
    k: Known,
    m: Trees,
    tree: Option<Oid>,
    names: Seq<Seq<char>>,
    i: int,
    entry: Option<(Oid, i32)>,
)
    requires
        keeps_trees(k, m),
        0 <= i < names.len(),
    ensures
        engine::updated_in(k, tree, names, i, entry) matches AskV::Have((t, empty)) ==> (empty
            ==> m(t) == Map::<Seq<char>, Entry>::empty()),
    decreases names.len() - i,
{
    if i + 1 < names.len() {
        if let AskV::Have(there) = store::entry_in(k, QueryV::Entry { tree, name: names[i] }) {
            let sub = match there {
                Some(e) => Some(e.id),
                None => None,
            };
            lemma_empty(k, m, sub, names, i + 1, entry);
        }
    }
}

/// Reading a path back gives what was set there, and nothing where it was removed.
pub proof fn a_path_reads_back(
    k: Known,
    m: Trees,
    tree: Oid,
    path: Seq<char>,
    entry: Option<(Oid, i32)>,
)
    requires
        keeps_trees(k, m),
    ensures
        engine::set_path_in(k, tree, path, entry) matches AskV::Have(t) ==> entry_at(
            m,
            Some(t),
            engine::components(path),
            0,
        ) == match entry {
            Some((id, mode)) => Some(Entry { id, mode, dir: mode == engine::DIR }),
            None => None,
        },
{
    if engine::components(path).len() > 0 {
        lemma_reads_back(k, m, Some(tree), engine::components(path), 0, entry);
    }
}

/// Setting or removing a path leaves every other path as it was.
pub proof fn other_paths_stay(
    k: Known,
    m: Trees,
    tree: Oid,
    path: Seq<char>,
    entry: Option<(Oid, i32)>,
    other: Seq<char>,
)
    requires
        keeps_trees(k, m),
        diverge(engine::components(path), engine::components(other), 0),
    ensures
        engine::set_path_in(k, tree, path, entry) matches AskV::Have(t) ==> entry_at(
            m,
            Some(t),
            engine::components(other),
            0,
        ) == entry_at(m, Some(tree), engine::components(other), 0),
{
    lemma_frame(
        k,
        m,
        Some(tree),
        engine::components(path),
        0,
        entry,
        engine::components(other),
    );
}

/// A directory is never replaced by a file: the path must lead to a file or to
/// nothing for it to be set.
pub proof fn a_directory_is_not_overwritten(
    k: Known,
    m: Trees,
    tree: Oid,
    path: Seq<char>,
    id: Oid,
    mode: i32,
)
    requires
        keeps_trees(k, m),
        entry_at(m, Some(tree), engine::components(path), 0) matches Some(e) && e.dir,
    ensures
        !(engine::set_path_in(k, tree, path, Some((id, mode))) is Have),
{
    lemma_directory(k, m, Some(tree), engine::components(path), 0, id, mode);
}

proof fn lemma_directory(
    k: Known,
    m: Trees,
    tree: Option<Oid>,
    names: Seq<Seq<char>>,
    i: int,
    id: Oid,
    mode: i32,
)
    requires
        keeps_trees(k, m),
        0 <= i < names.len(),
        entry_at(m, tree, names, i) matches Some(e) && e.dir,
    ensures
        !(engine::updated_in(k, tree, names, i, Some((id, mode))) is Have),
    decreases names.len() - i,
{
    if i + 1 < names.len() {
        if let AskV::Have(there) = store::entry_in(k, QueryV::Entry { tree, name: names[i] }) {
            if let Some(e) = there {
                lemma_directory(k, m, Some(e.id), names, i + 1, id, mode);
            }
        }
    }
}

// ── what one call undoes of another ─────────────────────────────────────────

/// Trees are named by their content: those with the same entries are the same tree.
pub open spec fn by_content(m: Trees) -> bool {
    forall|a: Oid, b: Oid| #[trigger] m(a) == #[trigger] m(b) ==> a == b
}

/// The entries that are directories are those with the mode of one.
pub open spec fn modes_fit(m: Trees) -> bool {
    forall|t: Oid, name: Seq<char>| #[trigger]
        m(t).contains_key(name) ==> m(t)[name].dir == (m(t)[name].mode == engine::DIR)
}

/// None of the directories that the path `names[i..]` leads through is empty.
pub open spec fn leads_through_no_empty(
    m: Trees,
    tree: Option<Oid>,
    names: Seq<Seq<char>>,
    i: int,
) -> bool
    decreases names.len() - i,
{
    0 <= i && i + 1 < names.len() && held(m, tree).contains_key(names[i]) && held(
        m,
        tree,
    )[names[i]].dir ==> {
        let sub = held(m, tree)[names[i]].id;
        m(sub) != Map::<Seq<char>, Entry>::empty() && leads_through_no_empty(
            m,
            Some(sub),
            names,
            i + 1,
        )
    }
}

proof fn lemma_set_then_remove(
    k: Known,
    m: Trees,
    tree: Option<Oid>,
    names: Seq<Seq<char>>,
    i: int,
    id: Oid,
    mode: i32,
)
    requires
        keeps_trees(k, m),
        by_content(m),
        modes_fit(m),
        0 <= i < names.len(),
        entry_at(m, tree, names, i) is None,
        leads_through_no_empty(m, tree, names, i),
    ensures
        engine::updated_in(k, tree, names, i, Some((id, mode))) matches AskV::Have((t1, _)) ==> (
        engine::updated_in(k, Some(t1), names, i, None) matches AskV::Have((t2, empty)) ==> m(t2)
            == held(m, tree) && empty == (m(t2) == Map::<Seq<char>, Entry>::empty())),
    decreases names.len() - i,
{
    let name = names[i];
    let h = held(m, tree);
    if let AskV::Have((t1, _)) = engine::updated_in(k, tree, names, i, Some((id, mode))) {
        if let AskV::Have((t2, _)) = engine::updated_in(k, Some(t1), names, i, None) {
            if i + 1 < names.len() {
                let there = store::entry_in(k, QueryV::Entry { tree, name })->Have_0;
                let sub = match there {
                    Some(e) => Some(e.id),
                    None => None,
                };
                lemma_set_then_remove(k, m, sub, names, i + 1, id, mode);
                let below = engine::updated_in(k, sub, names, i + 1, Some((id, mode)))->Have_0.0;
                let e1 = Entry { id: below, mode: engine::DIR, dir: true };
                assert(m(t1) == h.insert(name, e1));
                assert(store::entry_in(k, QueryV::Entry { tree: Some(t1), name }) == AskV::Have(
                    Some(e1),
                ));
                let back = engine::updated_in(k, Some(below), names, i + 1, None)->Have_0.0;
                assert(m(back) == held(m, sub));
                match there {
                    Some(e) => {
                        assert(back == e.id);
                        assert(m(t2) =~= h);
                    },
                    None => assert(m(t2) =~= h),
                }
            } else {
                assert(m(t2) =~= h);
            }
        }
    }
}

proof fn lemma_remove_then_set(
    k: Known,
    m: Trees,
    tree: Option<Oid>,
    names: Seq<Seq<char>>,
    i: int,
    e: Entry,
    left: Option<Oid>,
)
    requires
        keeps_trees(k, m),
        by_content(m),
        modes_fit(m),
        0 <= i < names.len(),
        entry_at(m, tree, names, i) == Some(e),
        engine::updated_in(k, tree, names, i, None) matches AskV::Have((t1, _)) && held(m, left)
            == m(t1),
    ensures
        engine::updated_in(k, left, names, i, Some((e.id, e.mode))) matches AskV::Have((t2, _))
            ==> m(t2) == held(m, tree),
    decreases names.len() - i,
{
    let name = names[i];
    let h = held(m, tree);
    let t1 = engine::updated_in(k, tree, names, i, None)->Have_0.0;
    if let AskV::Have((t2, _)) = engine::updated_in(k, left, names, i, Some((e.id, e.mode))) {
        if i + 1 < names.len() {
            let d = h[name];
            let (below, empty) = engine::updated_in(k, Some(d.id), names, i + 1, None)->Have_0;
            lemma_empty(k, m, Some(d.id), names, i + 1, None);
            let rest = if empty {
                None
            } else {
                Some(below)
            };
            lemma_remove_then_set(k, m, Some(d.id), names, i + 1, e, rest);
            let back = engine::updated_in(k, rest, names, i + 1, Some((e.id, e.mode)))->Have_0.0;
            assert(m(back) == m(d.id));
            assert(back == d.id);
            assert(m(t2) =~= h);
        } else {
            assert(m(t2) =~= h);
        }
    }
}

/// Removing a path undoes setting it: where the tree has nothing at the path, and the
/// path leads through no empty directory, the removal gives back the very tree. In
/// between, the tree has what was set at the path, and every other path as it was.
pub proof fn removing_undoes_setting(
    k: Known,
    m: Trees,
    tree: Oid,
    path: Seq<char>,
    id: Oid,
    mode: i32,
)
    requires
        keeps_trees(k, m),
        by_content(m),
        modes_fit(m),
        entry_at(m, Some(tree), engine::components(path), 0) is None,
        leads_through_no_empty(m, Some(tree), engine::components(path), 0),
    ensures
        engine::set_path_in(k, tree, path, Some((id, mode))) matches AskV::Have(t1) ==> {
            &&& entry_at(m, Some(t1), engine::components(path), 0) == Some(
                Entry { id, mode, dir: mode == engine::DIR },
            )
            &&& forall|other: Seq<Seq<char>>| #[trigger]
                diverge(engine::components(path), other, 0) ==> entry_at(m, Some(t1), other, 0)
                    == entry_at(m, Some(tree), other, 0)
            &&& engine::set_path_in(k, t1, path, None) matches AskV::Have(t2) ==> t2 == tree
        },
{
    let names = engine::components(path);
    if names.len() > 0 {
        lemma_reads_back(k, m, Some(tree), names, 0, Some((id, mode)));
        assert forall|other: Seq<Seq<char>>| #[trigger]
            diverge(names, other, 0) && engine::set_path_in(
                k,
                tree,
                path,
                Some((id, mode)),
            ) is Have implies entry_at(
            m,
            Some(engine::set_path_in(k, tree, path, Some((id, mode)))->Have_0),
            other,
            0,
        ) == entry_at(m, Some(tree), other, 0) by {
            lemma_frame(k, m, Some(tree), names, 0, Some((id, mode)), other);
        }
        lemma_set_then_remove(k, m, Some(tree), names, 0, id, mode);
    }
}

/// Setting a path undoes removing it: what was there, set again, gives back the very
/// tree, directories that the removal emptied among it.
pub proof fn setting_undoes_removing(k: Known, m: Trees, tree: Oid, path: Seq<char>, e: Entry)
    requires
        keeps_trees(k, m),
        by_content(m),
        modes_fit(m),
        entry_at(m, Some(tree), engine::components(path), 0) == Some(e),
    ensures
        engine::set_path_in(k, tree, path, None) matches AskV::Have(t1) ==> (
        engine::set_path_in(k, t1, path, Some((e.id, e.mode))) matches AskV::Have(t2) ==> t2
            == tree),
{
    if let AskV::Have(t1) = engine::set_path_in(k, tree, path, None) {
        lemma_remove_then_set(
            k,
            m,
            Some(tree),
            engine::components(path),
            0,
            e,
            Some(t1),
        );
    }
}

} // verus!
