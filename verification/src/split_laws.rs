//! What holds of every split by path, and of every commit that is made to carry a change.

use crate::engine;
use crate::oid::Oid;
use crate::patch;
use crate::recipe;
use crate::shape_laws;
use crate::store;
use crate::store::{AskV, Entry, Known, QueryV};
use crate::git::StackV;
use crate::tree_laws;
use crate::tree_laws::Trees;
use vstd::prelude::*;

verus! {

/// The object store reads paths as `m` says.
pub open spec fn reads_paths(k: Known, m: Trees) -> bool {
    forall|tree: Oid, path: Seq<char>| #[trigger]
        store::entry_in(k, QueryV::Path { tree, path }) matches AskV::Have(e) ==> e
            == tree_laws::entry_at(m, Some(tree), engine::components(path), 0)
}

/// Of two of the paths, either both are the same, or neither leads through the other.
pub open spec fn apart(paths: Seq<Seq<char>>) -> bool {
    forall|i: int, j: int|
        #![trigger paths[i], paths[j]]
        0 <= i < paths.len() && 0 <= j < paths.len() ==> engine::components(paths[i])
            == engine::components(paths[j]) || tree_laws::diverge(
            engine::components(paths[i]),
            engine::components(paths[j]),
            0,
        )
}

/// The first `n` of the paths read in `t` as they do in `child`, and every path that
/// parts ways with all of them reads as it does in `parent`.
pub open spec fn takes(
    m: Trees,
    parent: Oid,
    child: Oid,
    paths: Seq<Seq<char>>,
    n: int,
    t: Oid,
) -> bool {
    &&& forall|i: int|
        0 <= i < n ==> tree_laws::entry_at(
            m,
            Some(t),
            engine::components(#[trigger] paths[i]),
            0,
        ) == tree_laws::entry_at(m, Some(child), engine::components(paths[i]), 0)
    &&& forall|other: Seq<Seq<char>>|
        (forall|i: int|
            0 <= i < n ==> tree_laws::diverge(engine::components(#[trigger] paths[i]), other, 0))
            ==> #[trigger] tree_laws::entry_at(m, Some(t), other, 0) == tree_laws::entry_at(
            m,
            Some(parent),
            other,
            0,
        )
}

proof fn lemma_mode_fits(m: Trees, tree: Option<Oid>, names: Seq<Seq<char>>, i: int)
    requires
        tree_laws::modes_fit(m),
    ensures
        tree_laws::entry_at(m, tree, names, i) matches Some(e) ==> e.dir == (e.mode
            == engine::DIR),
    decreases names.len() - i,
{
    if 0 <= i < names.len() && tree is Some && m(tree->0).contains_key(names[i]) {
        let e = m(tree->0)[names[i]];
        if i + 1 < names.len() && e.dir {
            lemma_mode_fits(m, Some(e.id), names, i + 1);
        }
    }
}

proof fn lemma_taken(
    k: Known,
    m: Trees,
    parent: Oid,
    child: Oid,
    paths: Seq<Seq<char>>,
    i: int,
    tree: Oid,
)
    requires
        tree_laws::keeps_trees(k, m),
        tree_laws::modes_fit(m),
        reads_paths(k, m),
        apart(paths),
        0 <= i <= paths.len(),
        takes(m, parent, child, paths, i, tree),
    ensures
        recipe::taken_in(k, parent, child, paths, i, tree) matches AskV::Have(t) ==> takes(
            m,
            parent,
            child,
            paths,
            paths.len() as int,
            t,
        ),
    decreases paths.len() - i,
{
    if i < paths.len() {
        let names = engine::components(paths[i]);
        let wanted = recipe::wanted_in(k, parent, child, paths[i]);
        if wanted is Have {
            let entry = wanted->Have_0;
            if let AskV::Have(t) = engine::set_path_in(k, tree, paths[i], entry) {
                lemma_mode_fits(m, Some(child), names, 0);
                tree_laws::a_path_reads_back(k, m, tree, paths[i], entry);
                assert(tree_laws::entry_at(m, Some(t), names, 0) == tree_laws::entry_at(
                    m,
                    Some(child),
                    names,
                    0,
                ));
                assert forall|j: int| 0 <= j < i + 1 implies tree_laws::entry_at(
                    m,
                    Some(t),
                    engine::components(#[trigger] paths[j]),
                    0,
                ) == tree_laws::entry_at(m, Some(child), engine::components(paths[j]), 0) by {
                    if engine::components(paths[j]) != names {
                        assert(tree_laws::diverge(names, engine::components(paths[j]), 0));
                        tree_laws::other_paths_stay(k, m, tree, paths[i], entry, paths[j]);
                    }
                }
                assert forall|other: Seq<Seq<char>>|
                    (forall|j: int|
                        0 <= j < i + 1 ==> tree_laws::diverge(
                            engine::components(#[trigger] paths[j]),
                            other,
                            0,
                        )) implies #[trigger] tree_laws::entry_at(m, Some(t), other, 0)
                    == tree_laws::entry_at(m, Some(parent), other, 0) by {
                    assert(tree_laws::diverge(engine::components(paths[i]), other, 0));
                    tree_laws::lemma_frame(k, m, Some(tree), names, 0, entry, other);
                }
                lemma_taken(k, m, parent, child, paths, i + 1, t);
            }
        }
    }
}

/// In the tree of a split-off commit every named path reads as it does in the commit that
/// is split: with its content and mode there, and not at all where that commit deleted
/// it. Every path that parts ways with the named ones reads as in the parent.
pub proof fn a_split_off_tree_takes_the_named_paths(
    k: Known,
    m: Trees,
    parent: Oid,
    child: Oid,
    paths: Seq<Seq<char>>,
)
    requires
        tree_laws::keeps_trees(k, m),
        tree_laws::modes_fit(m),
        reads_paths(k, m),
        apart(paths),
    ensures
        recipe::taken_in(k, parent, child, paths, 0, parent) matches AskV::Have(t) ==> takes(
            m,
            parent,
            child,
            paths,
            paths.len() as int,
            t,
        ),
{
    assert(takes(m, parent, child, paths, 0, parent));
    lemma_taken(k, m, parent, child, paths, 0, parent);
}

/// The message of a split-off commit: the one that was given, or the summary of the
/// commit that is split, marked as its first part.
pub open spec fn names_a_part(message: Seq<char>, given: Option<Seq<char>>, summary: Option<
    Seq<char>,
>) -> bool {
    match (given, summary) {
        (Some(g), _) => message == g,
        (None, Some(t)) => message == t + " (part 1)"@,
        (None, None) => message == "split (part 1)"@,
    }
}

/// A split makes a commit on top of the parent of the one it splits, in the name of that
/// one's author, that holds the change of the named paths and no other; and it is planned
/// right before the one that is split. It holds some of the change, and not all.
pub proof fn a_split_takes_a_commit_apart(
    k: Known,
    m: Trees,
    s: StackV,
    head: Oid,
    i: int,
    paths: Seq<Seq<char>>,
    msg: Option<Seq<char>>,
)
    requires
        tree_laws::keeps_trees(k, m),
        tree_laws::modes_fit(m),
        reads_paths(k, m),
        apart(paths),
        0 <= i < s.rows.len(),
        s.ids().no_duplicates(),
    ensures
        recipe::split_in(k, s, head, s.ids()[i], paths, msg) matches AskV::Have(p) ==> {
            let c = s.rows[i].1;
            &&& c.parents.len() > 0
            &&& store::commit_in(k, c.parents[0]) is Have
            &&& exists|t: Oid, message: Seq<char>|
                {
                    let parent = store::commit_in(k, c.parents[0])->Have_0;
                    let made = #[trigger] store::object_in(
                        k,
                        QueryV::Create {
                            tree: t,
                            parent: c.parents[0],
                            message,
                            like: Some(s.ids()[i]),
                        },
                    );
                    &&& made is Have
                    &&& takes(m, parent.tree, c.tree, paths, paths.len() as int, t)
                    &&& t != parent.tree
                    &&& t != c.tree
                    &&& names_a_part(message, msg, c.summary)
                    &&& !s.ids().contains(made->Have_0) ==> {
                        &&& p.order == seq![made->Have_0] + s.ids().skip(i)
                        &&& shape_laws::starts_from(s, head, p, i)
                        &&& shape_laws::edits_nothing(p)
                    }
                }
        },
{
    let rev = s.ids()[i];
    recipe::lemma_place(s.ids(), rev);
    assert(recipe::place(s.ids(), rev) == Some(i)) by {
        assert(s.ids().contains(rev));
    }
    let c = s.rows[i].1;
    if let AskV::Have(p) = recipe::split_in(k, s, head, rev, paths, msg) {
        let parent = store::commit_in(k, c.parents[0])->Have_0;
        a_split_off_tree_takes_the_named_paths(k, m, parent.tree, c.tree, paths);
        let t = recipe::taken_in(k, parent.tree, c.tree, paths, 0, parent.tree)->Have_0;
        let message = match msg {
            Some(g) => g,
            None => recipe::part_one(c.summary),
        };
        assert(names_a_part(message, msg, c.summary)) by {
            if msg is None && c.summary is None {
                reveal_strlit("split");
                reveal_strlit(" (part 1)");
                reveal_strlit("split (part 1)");
                assert(message =~= "split (part 1)"@);
            }
        }
        let made = store::object_in(
            k,
            QueryV::Create { tree: t, parent: c.parents[0], message, like: Some(rev) },
        );
        assert(made is Have);
        if !s.ids().contains(made->Have_0) {
            shape_laws::a_split_puts_a_commit_before_another(s, head, i, made->Have_0);
        }
    }
}

/// A split is not refused where it can be done: some named path is changed by the commit,
/// and so is some path that parts ways with all of them. Then the tree is neither the
/// parent's nor the commit's own, and once the commit is made there is a plan.
pub proof fn a_split_of_a_part_is_planned(
    k: Known,
    m: Trees,
    s: StackV,
    head: Oid,
    i: int,
    paths: Seq<Seq<char>>,
    msg: Option<Seq<char>>,
    named: int,
    other: Seq<Seq<char>>,
)
    requires
        tree_laws::keeps_trees(k, m),
        tree_laws::modes_fit(m),
        reads_paths(k, m),
        apart(paths),
        0 <= i < s.rows.len(),
        s.ids().no_duplicates(),
        s.rows[i].1.parents.len() > 0,
        store::commit_in(k, s.rows[i].1.parents[0]) is Have,
        ({
            let parent = store::commit_in(k, s.rows[i].1.parents[0])->Have_0.tree;
            let child = s.rows[i].1.tree;
            let name = engine::components(paths[named]);
            &&& 0 <= named < paths.len()
            &&& tree_laws::entry_at(m, Some(parent), name, 0) != tree_laws::entry_at(
                m,
                Some(child),
                name,
                0,
            )
            &&& forall|j: int|
                0 <= j < paths.len() ==> tree_laws::diverge(
                    engine::components(#[trigger] paths[j]),
                    other,
                    0,
                )
            &&& tree_laws::entry_at(m, Some(parent), other, 0) != tree_laws::entry_at(
                m,
                Some(child),
                other,
                0,
            )
            &&& recipe::taken_in(k, parent, child, paths, 0, parent) is Have
        }),
        forall|q: QueryV|
            q is Create ==> #[trigger] store::object_in(k, q) is Need || (store::object_in(
                k,
                q,
            ) matches AskV::Have(first) && !s.ids().contains(first)),
    ensures
        !(recipe::split_in(k, s, head, s.ids()[i], paths, msg) is Fail),
{
    let rev = s.ids()[i];
    recipe::lemma_place(s.ids(), rev);
    assert(recipe::place(s.ids(), rev) == Some(i)) by {
        assert(s.ids().contains(rev));
    }
    let c = s.rows[i].1;
    let parent = store::commit_in(k, c.parents[0])->Have_0;
    a_split_off_tree_takes_the_named_paths(k, m, parent.tree, c.tree, paths);
    let t = recipe::taken_in(k, parent.tree, c.tree, paths, 0, parent.tree)->Have_0;
    assert(tree_laws::entry_at(m, Some(t), engine::components(paths[named]), 0)
        == tree_laws::entry_at(m, Some(c.tree), engine::components(paths[named]), 0));
    assert(tree_laws::entry_at(m, Some(t), other, 0) == tree_laws::entry_at(
        m,
        Some(parent.tree),
        other,
        0,
    ));
    let message = match msg {
        Some(g) => g,
        None => recipe::part_one(c.summary),
    };
    let made = store::object_in(
        k,
        QueryV::Create { tree: t, parent: c.parents[0], message, like: Some(rev) },
    );
    if made is Have {
        shape_laws::a_split_puts_a_commit_before_another(s, head, i, made->Have_0);
    }
}

// ── what stands in the way of a path ────────────────────────────────────────

/// The object store answers every question about trees that it was asked.
pub open spec fn serves_trees(k: Known) -> bool {
    &&& forall|q: QueryV| q is Entry || q is Path ==> !(#[trigger] store::entry_in(k, q) is Fail)
    &&& forall|q: QueryV| q is Rebuild ==> !(#[trigger] store::tree_in(k, q) is Fail)
}

/// The path leads through a file, or to a directory.
pub open spec fn blocked(m: Trees, tree: Option<Oid>, names: Seq<Seq<char>>, i: int) -> bool
    decreases names.len() - i,
{
    0 <= i < names.len() && tree_laws::held(m, tree).contains_key(names[i]) && {
        let e = tree_laws::held(m, tree)[names[i]];
        if i + 1 == names.len() {
            e.dir
        } else {
            !e.dir || blocked(m, Some(e.id), names, i + 1)
        }
    }
}

proof fn lemma_unblocked(
    k: Known,
    m: Trees,
    tree: Option<Oid>,
    names: Seq<Seq<char>>,
    i: int,
    entry: Option<(Oid, i32)>,
)
    requires
        tree_laws::keeps_trees(k, m),
        serves_trees(k),
        0 <= i < names.len(),
    ensures
        engine::updated_in(k, tree, names, i, entry) is Fail ==> entry is Some && blocked(
            m,
            tree,
            names,
            i,
        ),
        entry is Some && blocked(m, tree, names, i) ==> !(engine::updated_in(
            k,
            tree,
            names,
            i,
            entry,
        ) is Have),
    decreases names.len() - i,
{
    let q = QueryV::Entry { tree, name: names[i] };
    assert(!(store::entry_in(k, q) is Fail));
    if i + 1 < names.len() && store::entry_in(k, q) is Have {
        let there = store::entry_in(k, q)->Have_0;
        let sub = match there {
            Some(e) => Some(e.id),
            None => None,
        };
        lemma_unblocked(k, m, sub, names, i + 1, entry);
    }
}

/// To remove a path never fails; to set one fails exactly where it leads through a file or
/// to a directory; so far as the object store answers.
pub proof fn a_path_is_set_unless_something_is_in_its_way(
    k: Known,
    m: Trees,
    tree: Oid,
    path: Seq<char>,
    entry: Option<(Oid, i32)>,
)
    requires
        tree_laws::keeps_trees(k, m),
        serves_trees(k),
        engine::components(path).len() > 0,
    ensures
        entry is None ==> !(engine::set_path_in(k, tree, path, entry) is Fail),
        entry is Some && !blocked(m, Some(tree), engine::components(path), 0) ==> !(
        engine::set_path_in(k, tree, path, entry) is Fail),
        entry is Some && blocked(m, Some(tree), engine::components(path), 0) ==> !(
        engine::set_path_in(k, tree, path, entry) is Have),
{
    lemma_unblocked(k, m, Some(tree), engine::components(path), 0, entry);
}

// ── a commit that carries a change ──────────────────────────────────────────

/// The commit that is made to carry a change of one file stands on `source`. Its tree has
/// the text at the path, with the mode, and reads at every other path as the source's.
pub proof fn a_carrying_commit_changes_one_path(
    k: Known,
    m: Trees,
    source: Oid,
    path: Seq<char>,
    content: Seq<char>,
    mode: i32,
)
    requires
        tree_laws::keeps_trees(k, m),
    ensures
        patch::synthetic_in(k, source, path, content, mode) matches AskV::Have(c) ==> exists|
            t: Oid,
            message: Seq<char>,
        |
            {
                let blob = store::object_in(k, QueryV::Blob(content));
                let from = store::commit_in(k, source);
                let names = engine::components(path);
                &&& blob is Have && from is Have
                &&& #[trigger] store::object_in(
                    k,
                    QueryV::Create { tree: t, parent: source, message, like: None },
                ) == AskV::Have(c)
                &&& tree_laws::entry_at(m, Some(t), names, 0) == Some(
                    Entry { id: blob->Have_0, mode, dir: mode == engine::DIR },
                )
                &&& forall|other: Seq<Seq<char>>| #[trigger]
                    tree_laws::diverge(names, other, 0) ==> tree_laws::entry_at(
                        m,
                        Some(t),
                        other,
                        0,
                    ) == tree_laws::entry_at(m, Some(from->Have_0.tree), other, 0)
            },
{
    if let AskV::Have(c) = patch::synthetic_in(k, source, path, content, mode) {
        let blob = store::object_in(k, QueryV::Blob(content))->Have_0;
        let from = store::commit_in(k, source)->Have_0.tree;
        let names = engine::components(path);
        let t = engine::set_path_in(k, from, path, Some((blob, mode)))->Have_0;
        tree_laws::a_path_reads_back(k, m, from, path, Some((blob, mode)));
        assert forall|other: Seq<Seq<char>>| #[trigger]
            tree_laws::diverge(names, other, 0) implies tree_laws::entry_at(m, Some(t), other, 0)
            == tree_laws::entry_at(m, Some(from), other, 0) by {
            tree_laws::lemma_frame(k, m, Some(from), names, 0, Some((blob, mode)), other);
        }
        assert(store::object_in(
            k,
            QueryV::Create { tree: t, parent: source, message: "transplant-partial"@, like: None },
        ) == AskV::Have(c));
    }
}

} // verus!
