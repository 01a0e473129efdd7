//! What holds of every replay.

use crate::engine;
use crate::engine::{EditV, JobV, Picked, WalkedV};
use crate::git::Merge;
use crate::oid::Oid;
use crate::recipe;
use crate::recipe::PlanV;
use crate::store;
use crate::store::{AnswerV, AskV, Known, QueryV};
use vstd::prelude::*;

verus! {

// ── it comes to an end ──────────────────────────────────────────────────────

proof fn lemma_edits_ask_new(
    k: Known,
    tree: Oid,
    edits: Seq<(Oid, EditV)>,
    j: int,
    at: Oid,
    how: Merge,
)
    ensures
        engine::all_edited_in(k, tree, edits, j, at, how) matches AskV::Need(q) ==> !k.contains_key(q),
    decreases edits.len() - j,
{
    if 0 <= j < edits.len() {
        if edits[j].0 != at {
            lemma_edits_ask_new(k, tree, edits, j + 1, at, how);
        } else {
            engine::lemma_edited(k, k, tree, edits[j].1, at, how);
            if let AskV::Have(t) = engine::edited_in(k, tree, edits[j].1, at, how) {
                lemma_edits_ask_new(k, t, edits, j + 1, at, how);
            }
        }
    }
}

proof fn lemma_replay_asks_new(k: Known, job: JobV, i: int, w: WalkedV)
    ensures
        engine::replayed_in(k, job, i, w) matches AskV::Need(q) ==> !k.contains_key(q),
    decreases job.order.len() - i,
{
    if 0 <= i < job.order.len() {
        let c = job.order[i];
        if let AskV::Have(p) = engine::picked_in(k, c, w.tree, job.how) {
            lemma_edits_ask_new(k, p.tree, job.recipe.edits, 0, c, job.how);
            if let AskV::Have(t) = engine::all_edited_in(k, p.tree, job.recipe.edits, 0, c, job.how) {
                if let AskV::Have(next) = engine::settled_in(
                    k,
                    c,
                    p,
                    t,
                    job.recipe.message_for(c),
                    job.drop_empty,
                    w,
                ) {
                    lemma_replay_asks_new(k, job, i + 1, next);
                }
            }
        }
    }
}

/// A replay asks only for what is not known, whatever is known: each answer brings it
/// further.
pub proof fn a_replay_asks_only_what_is_not_known(k: Known, job: JobV)
    ensures
        engine::replay_in(k, job) matches AskV::Need(q) ==> !k.contains_key(q),
{
    if let AskV::Have(w) = engine::started_in(k, job.base) {
        lemma_replay_asks_new(k, job, 0, w);
    }
}

// ── where every commit went ─────────────────────────────────────────────────

pub proof fn lemma_carried_keeps(ids: Seq<Oid>, i: int, map: Seq<(Oid, Oid)>, carry: Option<Oid>, c: Oid)
    ensures
        engine::image(map, c) is Some ==> engine::image(engine::carried(ids, i, map, carry), c) == engine::image(map, c),
    decreases ids.len() - i,
{
    if 0 <= i < ids.len() {
        match (engine::image(map, ids[i]), carry) {
            (Some(n), _) => lemma_carried_keeps(ids, i + 1, map, Some(n), c),
            (None, Some(p)) => {
                assert(map.push((ids[i], p)).drop_last() =~= map);
                lemma_carried_keeps(ids, i + 1, map.push((ids[i], p)), carry, c);
            },
            (None, None) => lemma_carried_keeps(ids, i + 1, map, None, c),
        }
    }
}

proof fn lemma_carried_places(
    ids: Seq<Oid>,
    i: int,
    map: Seq<(Oid, Oid)>,
    carry: Option<Oid>,
    j: int,
)
    requires
        0 <= i <= j < ids.len(),
        carry is Some,
    ensures
        engine::image(engine::carried(ids, i, map, carry), ids[j]) is Some,
    decreases ids.len() - i,
{
    match engine::image(map, ids[i]) {
        Some(n) => {
            lemma_carried_keeps(ids, i + 1, map, Some(n), ids[j]);
            if i < j {
                lemma_carried_places(ids, i + 1, map, Some(n), j);
            }
        },
        None => {
            let m = map.push((ids[i], carry->0));
            assert(m.drop_last() =~= map);
            lemma_carried_keeps(ids, i + 1, m, carry, ids[j]);
            if i < j {
                lemma_carried_places(ids, i + 1, m, carry, j);
            }
        },
    }
}

/// What a finished walk from `w` has to show for `order[i..]`.
spec fn accounted(job: JobV, i: int, w: WalkedV, end: WalkedV) -> bool {
    &&& w.parent is Some ==> end.parent is Some
    &&& forall|c: Oid| #[trigger] engine::image(w.map, c) is Some ==> engine::image(end.map, c) is Some
    &&& forall|j: int|
        i <= j < job.order.len() && w.parent is Some ==> engine::image(
            end.map,
            #[trigger] job.order[j],
        ) is Some
    &&& i < job.order.len() && w.parent is Some ==> end.parent == engine::image(
        end.map,
        job.order.last(),
    )
    &&& forall|c: Oid| #[trigger]
        end.dropped.contains(c) ==> w.dropped.contains(c) || job.order.contains(c)
    &&& forall|c: Oid| #[trigger]
        end.unsigned.contains(c) ==> w.unsigned.contains(c) || job.order.contains(c)
}

proof fn lemma_settled_accounts(k: Known, job: JobV, i: int, p: Picked, t: Oid, w: WalkedV)
    requires
        0 <= i < job.order.len(),
    ensures
        engine::settled_in(
            k,
            job.order[i],
            p,
            t,
            job.recipe.message_for(job.order[i]),
            job.drop_empty,
            w,
        ) matches AskV::Have(next) ==> {
            &&& w.parent is Some ==> next.parent is Some && next.parent == engine::image(
                next.map,
                job.order[i],
            )
            &&& forall|c: Oid| #[trigger] engine::image(w.map, c) is Some ==> engine::image(next.map, c) is Some
            &&& forall|c: Oid| #[trigger]
                next.dropped.contains(c) ==> w.dropped.contains(c) || job.order.contains(c)
            &&& forall|c: Oid| #[trigger]
                next.unsigned.contains(c) ==> w.unsigned.contains(c) || job.order.contains(c)
        },
{
    let c = job.order[i];
    let r = engine::settled_in(k, c, p, t, job.recipe.message_for(c), job.drop_empty, w);
    if let AskV::Have(next) = r {
        if engine::vanishes(p, t, w, job.drop_empty) {
            if let Some(parent) = w.parent {
                assert(w.map.push((c, parent)).drop_last() =~= w.map);
            }
        } else {
            assert(next.map.drop_last() =~= w.map);
        }
        assert forall|d: Oid| #[trigger] next.dropped.contains(d) implies w.dropped.contains(d)
            || job.order.contains(d) by {
            if !w.dropped.contains(d) {
                let n = next.dropped.index_of(d);
                if n < w.dropped.len() {
                    assert(w.dropped[n] == d);
                }
                assert(job.order[i] == d);
            }
        }
        assert forall|d: Oid| #[trigger] next.unsigned.contains(d) implies w.unsigned.contains(d)
            || job.order.contains(d) by {
            if !w.unsigned.contains(d) {
                let n = next.unsigned.index_of(d);
                if n < w.unsigned.len() {
                    assert(w.unsigned[n] == d);
                }
                assert(job.order[i] == d);
            }
        }
    }
}

proof fn lemma_replayed_accounts(k: Known, job: JobV, i: int, w: WalkedV)
    requires
        0 <= i <= job.order.len(),
    ensures
        engine::replayed_in(k, job, i, w) matches AskV::Have(end) ==> accounted(job, i, w, end),
    decreases job.order.len() - i,
{
    if i < job.order.len() {
        let c = job.order[i];
        if let AskV::Have(p) = engine::picked_in(k, c, w.tree, job.how) {
            if let AskV::Have(t) = engine::all_edited_in(k, p.tree, job.recipe.edits, 0, c, job.how) {
                lemma_settled_accounts(k, job, i, p, t, w);
                if let AskV::Have(next) = engine::settled_in(
                    k,
                    c,
                    p,
                    t,
                    job.recipe.message_for(c),
                    job.drop_empty,
                    w,
                ) {
                    lemma_replayed_accounts(k, job, i + 1, next);
                }
            }
        }
    }
}

/// Every commit of the range, and every commit that was replayed, has a place
/// after a rewrite onto a base; the new tip is where the last of them went. Only
/// commits that were replayed can be reported as dropped, or as having lost
/// their signature.
pub proof fn every_commit_has_a_place(k: Known, job: JobV)
    requires
        job.base is Some,
    ensures
        engine::replay_in(k, job) matches AskV::Have(r) ==> {
            &&& forall|j: int| 0 <= j < job.ids.len() ==> engine::image(r.map, #[trigger] job.ids[j]) is Some
            &&& forall|j: int|
                0 <= j < job.order.len() ==> engine::image(r.map, #[trigger] job.order[j]) is Some
            &&& job.order.len() > 0 ==> engine::image(r.map, job.order.last()) == Some(r.tip)
            &&& job.order.len() == 0 ==> Some(r.tip) == job.base
            &&& forall|c: Oid| #[trigger] r.dropped.contains(c) ==> job.order.contains(c)
            &&& forall|c: Oid| #[trigger] r.unsigned.contains(c) ==> job.order.contains(c)
        },
{
    if let AskV::Have(w) = engine::started_in(k, job.base) {
        lemma_replayed_accounts(k, job, 0, w);
        if let AskV::Have(end) = engine::replayed_in(k, job, 0, w) {
            let r = engine::concluded(job, end);
            assert forall|j: int| 0 <= j < job.ids.len() implies engine::image(
                r.map,
                #[trigger] job.ids[j],
            ) is Some by {
                lemma_carried_places(job.ids, 0, end.map, job.base, j);
            }
            assert forall|j: int| 0 <= j < job.order.len() implies engine::image(
                r.map,
                #[trigger] job.order[j],
            ) is Some by {
                lemma_carried_keeps(job.ids, 0, end.map, job.base, job.order[j]);
            }
            if job.order.len() > 0 {
                lemma_carried_keeps(job.ids, 0, end.map, job.base, job.order.last());
            }
        }
    }
}

/// A commit whose change is there already goes where its rewritten parent is: a
/// branch on it lands on the same content. It is reported, and nothing is written.
pub proof fn a_dropped_commit_lands_on_its_rewritten_parent(
    k: Known,
    c: Oid,
    p: Picked,
    message: Option<Seq<char>>,
    w: WalkedV,
)
    requires
        p.tree == w.tree,
        !p.hollow,
    ensures
        engine::settled_in(k, c, p, p.tree, message, true, w) matches AskV::Have(next) && {
            &&& next.dropped == w.dropped.push(c)
            &&& next.parent == w.parent
            &&& next.tree == w.tree
            &&& w.parent matches Some(n) ==> engine::image(next.map, c) == Some(n)
        },
{
    if let Some(n) = w.parent {
        assert(w.map.push((c, n)).drop_last() =~= w.map);
    }
}

/// A commit that never changed anything is kept, whatever it lands on.
pub proof fn a_commit_empty_on_purpose_is_kept(
    k: Known,
    c: Oid,
    p: Picked,
    tree: Oid,
    message: Option<Seq<char>>,
    drop_empty: bool,
    w: WalkedV,
)
    requires
        p.hollow,
    ensures
        engine::settled_in(k, c, p, tree, message, drop_empty, w) matches AskV::Have(next)
            ==> next.dropped == w.dropped && next.tree == tree,
{
}

// ── what cannot conflict ────────────────────────────────────────────────────

/// Of the merges that were made: merging a change onto the very tree it was authored
/// against gave its result.
pub open spec fn merges_plainly(k: Known) -> bool {
    forall|b: Oid, t: Oid, how: Merge|
        #![trigger k[QueryV::Merge { base: b, ours: b, theirs: t, how }]]
        k.contains_key(QueryV::Merge { base: b, ours: b, theirs: t, how })
            ==> k[QueryV::Merge { base: b, ours: b, theirs: t, how }] == AnswerV::Object(t)
}

/// Of the commits that were written again: each of them could be.
pub open spec fn writes_commits(k: Known) -> bool {
    forall|orig: Oid, tree: Oid, parent: Option<Oid>, message: Option<Seq<char>>|
        #![trigger k[QueryV::Recommit { orig, tree, parent, message }]]
        k.contains_key(QueryV::Recommit { orig, tree, parent, message })
            ==> k[QueryV::Recommit { orig, tree, parent, message }] is Object
}

proof fn lemma_plain(k: Known, b: Oid, t: Oid, how: Merge, at: Oid)
    requires
        merges_plainly(k),
    ensures
        store::merged_in(k, b, b, t, how, at) is Need || store::merged_in(k, b, b, t, how, at)
            == AskV::Have(t),
{
    let q = QueryV::Merge { base: b, ours: b, theirs: t, how };
    if k.contains_key(q) {
        assert(k[q] == AnswerV::Object(t));
    }
}

proof fn lemma_writes(k: Known, orig: Oid, tree: Oid, parent: Option<Oid>, message: Option<Seq<char>>)
    requires
        writes_commits(k),
    ensures
        !(store::object_in(k, QueryV::Recommit { orig, tree, parent, message }) is Fail),
{
    let q = QueryV::Recommit { orig, tree, parent, message };
    if k.contains_key(q) {
        assert(k[q] is Object);
    }
}

/// The commit before `ids[i]`.
pub open spec fn below(base: Option<Oid>, ids: Seq<Oid>, i: int) -> Option<Oid> {
    if i == 0 {
        base
    } else {
        Some(ids[i - 1])
    }
}

/// `ids` is a linear run of commits on top of `base`, oldest first.
pub open spec fn linked(k: Known, base: Option<Oid>, ids: Seq<Oid>) -> bool {
    &&& engine::started_in(k, base) is Have
    &&& forall|i: int|
        0 <= i < ids.len() ==> {
            &&& #[trigger] store::commit_in(k, ids[i]) is Have
            &&& store::commit_in(k, ids[i])->Have_0.parents == match below(base, ids, i) {
                Some(p) => seq![p],
                None => Seq::empty(),
            }
        }
}

/// The tree of a commit that is known.
pub open spec fn tree_of(k: Known, c: Oid) -> Oid {
    store::commit_in(k, c)->Have_0.tree
}

/// The tree that `ids[i]` was authored on.
pub open spec fn tree_below(k: Known, base: Option<Oid>, ids: Seq<Oid>, i: int) -> Oid {
    match below(base, ids, i) {
        Some(p) => tree_of(k, p),
        None => store::object_in(k, QueryV::EmptyTree)->Have_0,
    }
}

proof fn lemma_no_edits(
    k: Known,
    tree: Oid,
    edits: Seq<(Oid, EditV)>,
    j: int,
    at: Oid,
    how: Merge,
)
    requires
        0 <= j <= edits.len(),
        forall|n: int| j <= n < edits.len() ==> (#[trigger] edits[n]).0 != at,
    ensures
        engine::all_edited_in(k, tree, edits, j, at, how) == AskV::Have(tree),
    decreases edits.len() - j,
{
    if j < edits.len() {
        lemma_no_edits(k, tree, edits, j + 1, at, how);
    }
}

proof fn lemma_base_tree(k: Known, base: Option<Oid>, ids: Seq<Oid>, i: int)
    requires
        linked(k, base, ids),
        0 <= i < ids.len(),
    ensures
        engine::base_tree_in(k, store::commit_in(k, ids[i])->Have_0) == AskV::Have(
            tree_below(k, base, ids, i),
        ),
{
    let c = store::commit_in(k, ids[i])->Have_0;
    if i > 0 {
        assert(c.parents[0] == ids[i - 1]);
        assert(store::commit_in(k, ids[i - 1]) is Have);
    } else if let Some(b) = base {
        assert(c.parents[0] == b);
    }
}

/// From `order[m]` on, the commits are the ones of the range from `ids[n]` on, no
/// edit is meant for them, and the stack below them has the content they were
/// authored on: they come out with the content they had.
proof fn lemma_rest_is_untouched(k: Known, job: JobV, m: int, n: int, w: WalkedV)
    requires
        merges_plainly(k),
        writes_commits(k),
        linked(k, job.base, job.ids),
        0 <= m <= job.order.len(),
        0 <= n <= job.ids.len(),
        job.order.len() - m == job.ids.len() - n,
        forall|j: int| n <= j < job.ids.len() ==> job.order[m + (j - n)] == #[trigger] job.ids[j],
        forall|j: int| n <= j < job.ids.len() ==> !job.recipe.touches(#[trigger] job.ids[j]),
        w.tree == tree_below(k, job.base, job.ids, n),
    ensures
        match engine::replayed_in(k, job, m, w) {
            AskV::Need(_) => true,
            AskV::Fail(_) => false,
            AskV::Have(end) => end.tree == tree_below(
                k,
                job.base,
                job.ids,
                job.ids.len() as int,
            ) && end.dropped == w.dropped,
        },
    decreases job.ids.len() - n,
{
    if n < job.ids.len() {
        let c = job.ids[n];
        assert(job.order[m + (n - n)] == c);
        assert(store::commit_in(k, job.ids[n]) is Have);
        lemma_base_tree(k, job.base, job.ids, n);
        lemma_plain(k, w.tree, tree_of(k, c), job.how, c);
        if let AskV::Have(p) = engine::picked_in(k, c, w.tree, job.how) {
            assert(p.tree == tree_of(k, c));
            lemma_no_edits(k, p.tree, job.recipe.edits, 0, c, job.how);
            let message = job.recipe.message_for(c);
            assert(!engine::vanishes(p, p.tree, w, job.drop_empty));
            lemma_writes(k, c, p.tree, w.parent, message);
            if let AskV::Have(next) = engine::settled_in(
                k,
                c,
                p,
                p.tree,
                message,
                job.drop_empty,
                w,
            ) {
                assert forall|j: int| n + 1 <= j < job.ids.len() implies job.order[m + 1 + (j - (n
                    + 1))] == #[trigger] job.ids[j] by {
                    assert(job.order[m + (j - n)] == job.ids[j]);
                }
                lemma_rest_is_untouched(k, job, m + 1, n + 1, next);
            }
        }
    }
}

/// Folding a commit into the one below it cannot conflict, nor fail in any other
/// way. Its change is merged onto the tree it was authored on, and every later
/// commit finds the content it expects.
pub proof fn squash_cannot_conflict(k: Known, job: JobV)
    requires
        merges_plainly(k),
        writes_commits(k),
        linked(k, job.base, job.ids),
        job.ids.no_duplicates(),
        job.ids.len() >= 2,
        job.order == seq![job.ids[0]] + job.ids.skip(2),
        job.recipe.edits == seq![(job.ids[0], EditV::ApplyChange(job.ids[1]))],
    ensures
        !(engine::replay_in(k, job) is Fail),
{
    let w = engine::started_in(k, job.base)->Have_0;
    let (c, d) = (job.ids[0], job.ids[1]);
    lemma_base_tree(k, job.base, job.ids, 0);
    lemma_base_tree(k, job.base, job.ids, 1);
    assert(store::commit_in(k, job.ids[0]) is Have && store::commit_in(k, job.ids[1]) is Have);
    let (tc, td) = (tree_of(k, c), tree_of(k, d));
    assert(job.order[0] == c);
    assert(w.tree == tree_below(k, job.base, job.ids, 0));
    lemma_plain(k, w.tree, tc, job.how, c);
    lemma_plain(k, tc, td, job.how, c);
    if let AskV::Have(p) = engine::picked_in(k, c, w.tree, job.how) {
        assert(p.tree == tc);
        assert(engine::change_in(k, d) == AskV::Have((tc, td)));
        let edited = engine::edited_in(k, tc, job.recipe.edits[0].1, c, job.how);
        assert(edited is Need || edited == AskV::Have(td));
        lemma_no_edits(k, td, job.recipe.edits, 1, c, job.how);
        let all = engine::all_edited_in(k, tc, job.recipe.edits, 0, c, job.how);
        assert(all is Need || all == AskV::Have(td));
        let message = job.recipe.message_for(c);
        lemma_writes(k, c, td, w.parent, message);
        let settled = engine::settled_in(k, c, p, td, message, job.drop_empty, w);
        if settled is Have && all is Have {
            let next = settled->Have_0;
            assert(next.tree == td);
            assert forall|j: int| 2 <= j < job.ids.len() implies job.order[1 + (j - 2)]
                == #[trigger] job.ids[j] by {}
            assert forall|j: int| 2 <= j < job.ids.len() implies !job.recipe.touches(
                #[trigger] job.ids[j],
            ) by {
                assert(job.ids[j] != job.ids[0]);
            }
            lemma_rest_is_untouched(k, job, 1, 2, next);
        }
    }
}

/// Splitting a commit cannot conflict, nor fail in any other way, where the split-off
/// part is a part of the commit: merging the whole onto it gives the whole. The
/// commit that is split comes out with the content it had, so nothing above it can
/// break either.
pub proof fn split_cannot_conflict(k: Known, job: JobV, first: Oid)
    requires
        merges_plainly(k),
        writes_commits(k),
        linked(k, job.base, job.ids),
        job.base is Some,
        job.ids.len() >= 1,
        job.order == seq![first] + job.ids,
        job.recipe.edits.len() == 0,
        store::commit_in(k, first) is Have,
        store::commit_in(k, first)->Have_0.parents == seq![job.base->0],
        ({
            let whole = store::merged_in(
                k,
                tree_of(k, job.base->0),
                tree_of(k, first),
                tree_of(k, job.ids[0]),
                job.how,
                job.ids[0],
            );
            whole is Need || whole == AskV::Have(tree_of(k, job.ids[0]))
        }),
    ensures
        !(engine::replay_in(k, job) is Fail),
{
    let w = engine::started_in(k, job.base)->Have_0;
    let b = job.base->0;
    let c = job.ids[0];
    assert(store::commit_in(k, b) is Have);
    lemma_base_tree(k, job.base, job.ids, 0);
    assert(store::commit_in(k, job.ids[0]) is Have);
    assert(job.order[0] == first && job.order[1] == c);
    lemma_plain(k, w.tree, tree_of(k, first), job.how, first);
    if let AskV::Have(p) = engine::picked_in(k, first, w.tree, job.how) {
        assert(p.tree == tree_of(k, first));
        lemma_no_edits(k, p.tree, job.recipe.edits, 0, first, job.how);
        let m0 = job.recipe.message_for(first);
        lemma_writes(k, first, p.tree, w.parent, m0);
        if let AskV::Have(next) = engine::settled_in(
            k,
            first,
            p,
            p.tree,
            m0,
            job.drop_empty,
            w,
        ) {
            assert(next.tree == p.tree);
            assert(!(engine::picked_in(k, c, next.tree, job.how) is Fail));
            if let AskV::Have(p1) = engine::picked_in(k, c, next.tree, job.how) {
                assert(p1.tree == tree_of(k, c));
                lemma_no_edits(k, p1.tree, job.recipe.edits, 0, c, job.how);
                let m1 = job.recipe.message_for(c);
                lemma_writes(k, c, p1.tree, next.parent, m1);
                if let AskV::Have(next1) = engine::settled_in(
                    k,
                    c,
                    p1,
                    p1.tree,
                    m1,
                    job.drop_empty,
                    next,
                ) {
                    assert(next1.tree == p1.tree);
                    assert forall|j: int| 1 <= j < job.ids.len() implies job.order[2 + (j - 1)]
                        == #[trigger] job.ids[j] by {}
                    lemma_rest_is_untouched(k, job, 2, 1, next1);
                }
            }
            assert(!(engine::replayed_in(k, job, 1, next) is Fail));
        }
    }
}

/// Reverting a change undoes applying it: on the content that the change was authored
/// on, the one gives the changed content, and on that the other gives it back.
/// Neither fails.
pub proof fn a_revert_undoes_an_apply(k: Known, synth: Oid, at: Oid, how: Merge)
    requires
        merges_plainly(k),
        engine::change_in(k, synth) is Have,
    ensures
        ({
            let (from, to) = engine::change_in(k, synth)->Have_0;
            let applied = engine::edited_in(k, from, EditV::ApplyChange(synth), at, how);
            let reverted = engine::edited_in(k, to, EditV::RevertChange(synth), at, how);
            &&& applied is Need || applied == AskV::Have(to)
            &&& reverted is Need || reverted == AskV::Have(from)
        }),
{
    let (from, to) = engine::change_in(k, synth)->Have_0;
    lemma_plain(k, from, to, how, at);
    lemma_plain(k, to, from, how, at);
}

/// A reword changes no content: the replay of its plan cannot fail, drops nothing,
/// and ends on the content that the tip had.
pub proof fn a_reword_changes_no_content(k: Known, job: JobV, rev: Oid, msg: Seq<char>)
    requires
        merges_plainly(k),
        writes_commits(k),
        linked(k, job.base, job.ids),
        job.order == job.ids,
        recipe::reword_in(k, rev, job.tip, msg) == AskV::Have(
            PlanV { recipe: job.recipe, base: job.base, tip: job.tip },
        ),
    ensures
        !(engine::replay_in(k, job) is Fail),
        engine::replay_in(k, job) matches AskV::Have(r) ==> r.dropped.len() == 0,
        engine::replayed_in(k, job, 0, engine::started_in(k, job.base)->Have_0) matches AskV::Have(
            end,
        ) ==> end.tree == tree_below(k, job.base, job.ids, job.ids.len() as int),
{
    let w = engine::started_in(k, job.base)->Have_0;
    assert(job.recipe.edits.len() == 0);
    lemma_rest_is_untouched(k, job, 0, 0, w);
}

/// Folding the staged change into HEAD itself amends it: it cannot fail, and the new
/// tip holds just what was staged.
pub proof fn a_fix_into_head_amends_it(k: Known, job: JobV, staged: Oid, synth: Oid)
    requires
        merges_plainly(k),
        writes_commits(k),
        linked(k, job.base, job.ids),
        job.ids == seq![job.tip],
        job.order == job.ids,
        !job.drop_empty,
        store::object_in(
            k,
            QueryV::Create { tree: staged, parent: job.tip, message: "fixup"@, like: None },
        ) == AskV::Have(synth),
        store::commit_in(k, synth) matches AskV::Have(s) && s.tree == staged && s.parents == seq![
            job.tip,
        ],
        recipe::fix_in(k, job.tip, job.tip, staged) == AskV::Have(
            PlanV { recipe: job.recipe, base: job.base, tip: job.tip },
        ),
    ensures
        !(engine::replay_in(k, job) is Fail),
        engine::replayed_in(k, job, 0, engine::started_in(k, job.base)->Have_0) matches AskV::Have(
            end,
        ) ==> end.tree == staged,
{
    let w = engine::started_in(k, job.base)->Have_0;
    let c = job.tip;
    assert(job.ids[0] == c && job.order[0] == c);
    assert(store::commit_in(k, job.ids[0]) is Have);
    lemma_base_tree(k, job.base, job.ids, 0);
    let now = tree_of(k, c);
    assert(w.tree == tree_below(k, job.base, job.ids, 0));
    lemma_plain(k, w.tree, now, job.how, c);
    lemma_plain(k, now, staged, job.how, c);
    assert(job.recipe.edits =~= seq![(c, EditV::ApplyChange(synth))]);
    assert(engine::change_in(k, synth) == AskV::Have((now, staged)));
    if let AskV::Have(p) = engine::picked_in(k, c, w.tree, job.how) {
        assert(p.tree == now);
        let edited = engine::edited_in(k, now, job.recipe.edits[0].1, c, job.how);
        assert(edited is Need || edited == AskV::Have(staged));
        lemma_no_edits(k, staged, job.recipe.edits, 1, c, job.how);
        let all = engine::all_edited_in(k, now, job.recipe.edits, 0, c, job.how);
        assert(all is Need || all == AskV::Have(staged));
        let message = job.recipe.message_for(c);
        lemma_writes(k, c, staged, w.parent, message);
        let settled = engine::settled_in(k, c, p, staged, message, job.drop_empty, w);
        if all is Have && settled is Have {
            let next = settled->Have_0;
            assert(next.tree == staged);
            assert(engine::replayed_in(k, job, 1, next) == AskV::Have(next));
        }
    }
}

// ── nothing to do ───────────────────────────────────────────────────────────

/// Of the commits of the range that were written again with nothing changed: each came
/// out as the very same commit.
pub open spec fn rewrites_same(k: Known, base: Option<Oid>, ids: Seq<Oid>) -> bool {
    forall|i: int|
        0 <= i < ids.len() ==> {
            let same = store::object_in(
                k,
                QueryV::Recommit {
                    orig: #[trigger] ids[i],
                    tree: tree_of(k, ids[i]),
                    parent: below(base, ids, i),
                    message: None,
                },
            );
            same is Need || same == AskV::Have(ids[i])
        }
}

#[verifier::rlimit(40)]
#[verifier::spinoff_prover]
proof fn lemma_untouched_walk(k: Known, job: JobV, i: int, w: WalkedV)
    requires
        merges_plainly(k),
        linked(k, job.base, job.ids),
        rewrites_same(k, job.base, job.ids),
        job.order == job.ids,
        job.recipe == engine::RecipeV::empty(),
        0 <= i <= job.ids.len(),
        w.parent == below(job.base, job.ids, i),
        w.tree == tree_below(k, job.base, job.ids, i),
        forall|j: int| 0 <= j < i ==> engine::image(w.map, #[trigger] job.ids[j]) == Some(
            job.ids[j],
        ),
    ensures
        match engine::replayed_in(k, job, i, w) {
            AskV::Need(_) => true,
            AskV::Fail(_) => false,
            AskV::Have(end) => {
                &&& end.parent == below(job.base, job.ids, job.ids.len() as int)
                &&& end.dropped == w.dropped
                &&& end.unsigned == w.unsigned
                &&& forall|j: int|
                    0 <= j < job.ids.len() ==> engine::image(end.map, #[trigger] job.ids[j])
                        == Some(job.ids[j])
            },
        },
    decreases job.ids.len() - i,
{
    if i < job.ids.len() {
        let c = job.ids[i];
        assert(store::commit_in(k, job.ids[i]) is Have);
        lemma_base_tree(k, job.base, job.ids, i);
        lemma_plain(k, w.tree, tree_of(k, c), job.how, c);
        if let AskV::Have(p) = engine::picked_in(k, c, w.tree, job.how) {
            assert(p.tree == tree_of(k, c));
            lemma_no_edits(k, p.tree, job.recipe.edits, 0, c, job.how);
            assert(job.recipe.message_for(c) is None);
            if let AskV::Have(next) = engine::settled_in(
                k,
                c,
                p,
                p.tree,
                None,
                job.drop_empty,
                w,
            ) {
                assert(next == engine::written(c, c, p.tree, p.signed, w));
                assert(next.map.drop_last() =~= w.map);
                lemma_untouched_walk(k, job, i + 1, next);
            }
        }
    }
}

/// Replaying a range as it is, with no edits, cannot fail and changes nothing: the tip
/// and every commit keep their ids, none is dropped and no signature is lost.
pub proof fn replaying_nothing_changes_nothing(k: Known, job: JobV)
    requires
        merges_plainly(k),
        linked(k, job.base, job.ids),
        rewrites_same(k, job.base, job.ids),
        job.ids.len() > 0,
        job.order == job.ids,
        job.recipe == engine::RecipeV::empty(),
    ensures
        match engine::replay_in(k, job) {
            AskV::Need(_) => true,
            AskV::Fail(_) => false,
            AskV::Have(r) => {
                &&& r.tip == job.ids.last()
                &&& r.dropped.len() == 0
                &&& r.unsigned.len() == 0
                &&& forall|j: int|
                    0 <= j < job.ids.len() ==> engine::image(r.map, #[trigger] job.ids[j]) == Some(
                        job.ids[j],
                    )
            },
        },
{
    let w = engine::started_in(k, job.base)->Have_0;
    lemma_untouched_walk(k, job, 0, w);
    if let AskV::Have(end) = engine::replayed_in(k, job, 0, w) {
        let r = engine::concluded(job, end);
        assert forall|j: int| 0 <= j < job.ids.len() implies engine::image(
            r.map,
            #[trigger] job.ids[j],
        ) == Some(job.ids[j]) by {
            lemma_carried_keeps(job.ids, 0, end.map, job.base, job.ids[j]);
        }
    }
}

} // verus!
