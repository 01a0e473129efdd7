//! What a replay does, commit by commit, told by the answers of the object store.

use crate::engine;
use crate::engine::{EditV, JobV, RecipeV, WalkedV};
use crate::git::Merge;
use crate::oid::Oid;
use crate::replay_laws;
use crate::store;
use crate::store::{AnswerV, AskV, CommitV, Known, QueryV};
use vstd::prelude::*;

verus! {

// ── messages ────────────────────────────────────────────────────────────────

/// `message` is what the recipe says the message of `c` is to be: the one that was given
/// last, or none where none was given.
pub open spec fn says(recipe: RecipeV, c: Oid, message: Option<Seq<char>>) -> bool {
    match message {
        Some(m) => exists|x: int|
            {
                &&& 0 <= x < recipe.messages.len()
                &&& #[trigger] recipe.messages[x] == (c, m)
                &&& forall|y: int|
                    x < y < recipe.messages.len() ==> (#[trigger] recipe.messages[y]).0 != c
            },
        None => forall|y: int|
            0 <= y < recipe.messages.len() ==> (#[trigger] recipe.messages[y]).0 != c,
    }
}

/// A commit gets the message that was given for it last.
pub proof fn the_last_message_counts(recipe: RecipeV, c: Oid)
    ensures
        says(recipe, c, recipe.message_for(c)),
    decreases recipe.messages.len(),
{
    if recipe.messages.len() > 0 {
        let n = recipe.messages.len() as int;
        if recipe.messages.last().0 == c {
            assert(recipe.messages[n - 1] == (c, recipe.messages.last().1));
        } else {
            let front = RecipeV { messages: recipe.messages.drop_last(), ..recipe };
            the_last_message_counts(front, c);
            if let Some(m) = front.message_for(c) {
                let x = choose|x: int|
                    {
                        &&& 0 <= x < front.messages.len()
                        &&& #[trigger] front.messages[x] == (c, m)
                        &&& forall|y: int|
                            x < y < front.messages.len() ==> (#[trigger] front.messages[y]).0 != c
                    };
                assert(recipe.messages[x] == (c, m));
                assert forall|y: int| x < y < n implies (#[trigger] recipe.messages[y]).0 != c by {
                    if y < n - 1 {
                        assert(front.messages[y] == recipe.messages[y]);
                    }
                }
            } else {
                assert forall|y: int| 0 <= y < n implies (#[trigger] recipe.messages[y]).0
                    != c by {
                    if y < n - 1 {
                        assert(front.messages[y] == recipe.messages[y]);
                    }
                }
            }
        }
    }
}

// ── one commit ──────────────────────────────────────────────────────────────

/// What became of one commit of a replay.
pub struct StepV {
    /// The commit, and what is known of it.
    pub orig: Oid,
    pub info: CommitV,
    /// The tree that it was authored on.
    pub from: Oid,
    /// The rewritten commit that it goes onto, and its tree.
    pub parent: Option<Oid>,
    pub onto: Oid,
    /// The trees after the merge, and after each edit of the recipe.
    pub trees: Seq<Oid>,
    /// What it was written as, if it was.
    pub new: Option<Oid>,
}

impl StepV {
    /// The rewritten stack afterwards: its tip.
    pub open spec fn after(self) -> Option<Oid> {
        match self.new {
            Some(n) => Some(n),
            None => self.parent,
        }
    }

    /// The content of the rewritten stack afterwards.
    pub open spec fn content(self) -> Oid {
        match self.new {
            Some(_) => self.trees.last(),
            None => self.onto,
        }
    }
}

/// The commit is known, and this is known of it.
pub open spec fn is_commit(k: Known, c: Oid, info: CommitV) -> bool {
    k.contains_key(QueryV::Commit(c)) && k[QueryV::Commit(c)] == AnswerV::Commit(info)
}

/// The change from `from` to `to`, merged onto `onto`, gives `tree`.
pub open spec fn merges_to(k: Known, from: Oid, onto: Oid, to: Oid, how: Merge, tree: Oid) -> bool {
    let q = QueryV::Merge { base: from, ours: onto, theirs: to, how };
    k.contains_key(q) && k[q] == AnswerV::Object(tree)
}

/// The tree of the first of these commits; where there is none, the empty tree.
pub open spec fn tree_of_first(k: Known, parents: Seq<Oid>, tree: Oid) -> bool {
    if parents.len() == 0 {
        k.contains_key(QueryV::EmptyTree) && k[QueryV::EmptyTree] == AnswerV::Object(tree)
    } else {
        exists|p: CommitV| #[trigger] is_commit(k, parents[0], p) && p.tree == tree
    }
}

/// One edit makes `after` of `before`. A change is applied by merging what a commit
/// changed of its first parent, and reverted by merging the same backwards.
pub open spec fn makes(k: Known, edit: EditV, how: Merge, before: Oid, after: Oid) -> bool {
    match edit {
        EditV::ApplyChange(c) => exists|i: CommitV, p: CommitV|
            #![trigger is_commit(k, c, i), is_commit(k, i.parents[0], p)]
            is_commit(k, c, i) && i.parents.len() > 0 && is_commit(k, i.parents[0], p)
                && merges_to(k, p.tree, before, i.tree, how, after),
        EditV::RevertChange(c) => exists|i: CommitV, p: CommitV|
            #![trigger is_commit(k, c, i), is_commit(k, i.parents[0], p)]
            is_commit(k, c, i) && i.parents.len() > 0 && is_commit(k, i.parents[0], p)
                && merges_to(k, i.tree, before, p.tree, how, after),
        EditV::SetFile { path, blob, mode } => engine::set_path_in(
            k,
            before,
            path,
            Some((blob, mode)),
        ) == AskV::Have(after),
        EditV::RemoveFile { path } => engine::set_path_in(k, before, path, None) == AskV::Have(
            after,
        ),
    }
}

/// One after another, the edits of the recipe that are meant for the commit make the
/// trees, and the others change nothing.
pub open spec fn edits_to(k: Known, recipe: RecipeV, c: Oid, how: Merge, trees: Seq<Oid>) -> bool {
    &&& trees.len() == recipe.edits.len() + 1
    &&& forall|j: int|
        0 <= j < recipe.edits.len() ==> if (#[trigger] recipe.edits[j]).0 == c {
            makes(k, recipe.edits[j].1, how, trees[j], trees[j + 1])
        } else {
            trees[j + 1] == trees[j]
        }
}

/// What a replay does with one commit: what it changed of its own parent is merged onto
/// the stack, then its edits are made. With `drop_empty` it is left out where that adds
/// nothing, though it did change something; otherwise it is written again, with the
/// message that the recipe gives it.
pub open spec fn steps(k: Known, job: JobV, s: StepV) -> bool {
    &&& is_commit(k, s.orig, s.info)
    &&& tree_of_first(k, s.info.parents, s.from)
    &&& s.trees.len() > 0
    &&& merges_to(k, s.from, s.onto, s.info.tree, job.how, s.trees[0])
    &&& edits_to(k, job.recipe, s.orig, job.how, s.trees)
    &&& if job.drop_empty && s.trees.last() == s.onto && s.info.tree != s.from {
        s.new is None
    } else {
        &&& s.new is Some
        &&& exists|message: Option<Seq<char>>|
            {
                let q = QueryV::Recommit {
                    orig: s.orig,
                    tree: s.trees.last(),
                    parent: s.parent,
                    message,
                };
                &&& #[trigger] says(job.recipe, s.orig, message)
                &&& k.contains_key(q)
                &&& k[q] == AnswerV::Object(s.new->0)
            }
    }
}

proof fn lemma_change(k: Known, c: Oid)
    ensures
        engine::change_in(k, c) matches AskV::Have((from, to)) ==> exists|i: CommitV, p: CommitV|
            #![trigger is_commit(k, c, i), is_commit(k, i.parents[0], p)]
            is_commit(k, c, i) && i.parents.len() > 0 && is_commit(k, i.parents[0], p) && from
                == p.tree && to == i.tree,
{
    if engine::change_in(k, c) is Have {
        let i = store::commit_in(k, c)->Have_0;
        let p = store::commit_in(k, i.parents[0])->Have_0;
        assert(is_commit(k, c, i) && is_commit(k, i.parents[0], p));
    }
}

proof fn lemma_makes(k: Known, edit: EditV, at: Oid, how: Merge, before: Oid)
    ensures
        engine::edited_in(k, before, edit, at, how) matches AskV::Have(t) ==> makes(
            k,
            edit,
            how,
            before,
            t,
        ),
{
    match edit {
        EditV::ApplyChange(c) => lemma_change(k, c),
        EditV::RevertChange(c) => lemma_change(k, c),
        _ => {},
    }
}

proof fn lemma_edits(
    k: Known,
    recipe: RecipeV,
    c: Oid,
    how: Merge,
    j: int,
    tree: Oid,
) -> (trees: Seq<Oid>)
    requires
        0 <= j <= recipe.edits.len(),
    ensures
        engine::all_edited_in(k, tree, recipe.edits, j, c, how) matches AskV::Have(t) ==> {
            &&& trees.len() == recipe.edits.len() - j + 1
            &&& trees[0] == tree
            &&& trees.last() == t
            &&& forall|x: int|
                j <= x < recipe.edits.len() ==> if (#[trigger] recipe.edits[x]).0 == c {
                    makes(k, recipe.edits[x].1, how, trees[x - j], trees[x - j + 1])
                } else {
                    trees[x - j + 1] == trees[x - j]
                }
        },
    decreases recipe.edits.len() - j,
{
    if j == recipe.edits.len() {
        seq![tree]
    } else {
        let next = if recipe.edits[j].0 != c {
            AskV::Have(tree)
        } else {
            engine::edited_in(k, tree, recipe.edits[j].1, c, how)
        };
        lemma_makes(k, recipe.edits[j].1, c, how, tree);
        if next is Have {
            let rest = lemma_edits(k, recipe, c, how, j + 1, next->Have_0);
            let trees = seq![tree] + rest;
            if engine::all_edited_in(k, tree, recipe.edits, j, c, how) is Have {
                assert forall|x: int| j <= x < recipe.edits.len() implies if (
                #[trigger] recipe.edits[x]).0 == c {
                    makes(k, recipe.edits[x].1, how, trees[x - j], trees[x - j + 1])
                } else {
                    trees[x - j + 1] == trees[x - j]
                } by {
                    if x > j {
                        assert(trees[x - j] == rest[x - j - 1]);
                        assert(trees[x - j + 1] == rest[x - j]);
                    } else {
                        assert(trees[1] == rest[0]);
                    }
                }
            }
            trees
        } else {
            seq![tree]
        }
    }
}

// ── the whole replay ────────────────────────────────────────────────────────

/// The commits from the one at `i` on, one step each, from the commit `parent` with the
/// tree `onto`.
pub open spec fn follows(
    k: Known,
    job: JobV,
    i: int,
    parent: Option<Oid>,
    onto: Oid,
    trace: Seq<StepV>,
) -> bool {
    &&& trace.len() == job.order.len() - i
    &&& forall|x: int|
        0 <= x < trace.len() ==> {
            &&& steps(k, job, #[trigger] trace[x])
            &&& trace[x].orig == job.order[i + x]
            &&& trace[x].parent == if x == 0 {
                parent
            } else {
                trace[x - 1].after()
            }
            &&& trace[x].onto == if x == 0 {
                onto
            } else {
                trace[x - 1].content()
            }
        }
}

/// The commits that the steps leave out.
pub open spec fn left(trace: Seq<StepV>) -> Seq<Oid> {
    trace.filter(|s: StepV| s.new is None).map_values(|s: StepV| s.orig)
}

/// The commits that lose their signature: they were signed, and are written as another.
pub open spec fn bared(trace: Seq<StepV>) -> Seq<Oid> {
    trace.filter(|s: StepV| s.info.signed && s.new is Some && s.new != Some(s.orig)).map_values(
        |s: StepV| s.orig,
    )
}

proof fn lemma_filter_first(s: StepV, rest: Seq<StepV>, p: spec_fn(StepV) -> bool)
    ensures
        (seq![s] + rest).filter(p) == (if p(s) {
            seq![s]
        } else {
            Seq::empty()
        }) + rest.filter(p),
    decreases rest.len(),
{
    reveal(Seq::filter);
    let one = seq![s];
    assert(one.drop_last() =~= Seq::<StepV>::empty());
    assert(Seq::<StepV>::empty().filter(p) =~= Seq::<StepV>::empty());
    assert(one.filter(p) =~= if p(s) {
        seq![s]
    } else {
        Seq::empty()
    });
    if rest.len() == 0 {
        assert(one + rest =~= one);
        assert(rest.filter(p) =~= Seq::<StepV>::empty());
    } else {
        lemma_filter_first(s, rest.drop_last(), p);
        assert((one + rest).drop_last() =~= one + rest.drop_last());
        assert((one + rest).last() == rest.last());
    }
    assert((one + rest).filter(p) =~= (if p(s) {
        seq![s]
    } else {
        Seq::empty()
    }) + rest.filter(p));
}

proof fn lemma_first(s: StepV, rest: Seq<StepV>)
    ensures
        left(seq![s] + rest) == (if s.new is None {
            seq![s.orig]
        } else {
            Seq::empty()
        }) + left(rest),
        bared(seq![s] + rest) == (if s.info.signed && s.new is Some && s.new != Some(s.orig) {
            seq![s.orig]
        } else {
            Seq::empty()
        }) + bared(rest),
{
    let a = |s: StepV| s.new is None;
    let b = |s: StepV| s.info.signed && s.new is Some && s.new != Some(s.orig);
    lemma_filter_first(s, rest, a);
    lemma_filter_first(s, rest, b);
    assert(left(seq![s] + rest) =~= (if s.new is None {
        seq![s.orig]
    } else {
        Seq::empty()
    }) + left(rest));
    assert(bared(seq![s] + rest) =~= (if s.info.signed && s.new is Some && s.new != Some(s.orig) {
        seq![s.orig]
    } else {
        Seq::empty()
    }) + bared(rest));
}

/// What a walk that came to its end has to show for its steps.
spec fn shows(job: JobV, i: int, w: WalkedV, end: WalkedV, trace: Seq<StepV>) -> bool {
    &&& end.parent == if trace.len() == 0 {
        w.parent
    } else {
        trace.last().after()
    }
    &&& end.dropped == w.dropped + left(trace)
    &&& end.unsigned == w.unsigned + bared(trace)
    &&& forall|c: Oid|
        (forall|x: int| i <= x < job.order.len() ==> #[trigger] job.order[x] != c)
            ==> #[trigger] engine::image(end.map, c) == engine::image(w.map, c)
    &&& job.order.no_duplicates() && (forall|x: int|
        i <= x < job.order.len() ==> engine::image(w.map, #[trigger] job.order[x]) is None)
        ==> forall|x: int|
        0 <= x < trace.len() ==> engine::image(end.map, job.order[i + x]) == (
        #[trigger] trace[x]).after()
}

proof fn lemma_one_step(k: Known, job: JobV, i: int, w: WalkedV) -> (r: (StepV, WalkedV))
    requires
        0 <= i < job.order.len(),
        engine::replayed_in(k, job, i, w) is Have,
    ensures
        steps(k, job, r.0),
        r.0.orig == job.order[i],
        r.0.parent == w.parent,
        r.0.onto == w.tree,
        engine::replayed_in(k, job, i, w) == engine::replayed_in(k, job, i + 1, r.1),
        r.1.parent == r.0.after(),
        r.1.tree == r.0.content(),
        r.1.map == match r.0.after() {
            Some(n) => w.map.push((job.order[i], n)),
            None => w.map,
        },
        r.1.dropped == if r.0.new is None {
            w.dropped.push(r.0.orig)
        } else {
            w.dropped
        },
        r.1.unsigned == if r.0.info.signed && r.0.new is Some && r.0.new != Some(r.0.orig) {
            w.unsigned.push(r.0.orig)
        } else {
            w.unsigned
        },
{
    let c = job.order[i];
    let info = store::commit_in(k, c)->Have_0;
    let from = engine::base_tree_in(k, info)->Have_0;
    let p = engine::picked_in(k, c, w.tree, job.how)->Have_0;
    let trees = lemma_edits(k, job.recipe, c, job.how, 0, p.tree);
    let t = engine::all_edited_in(k, p.tree, job.recipe.edits, 0, c, job.how)->Have_0;
    let message = job.recipe.message_for(c);
    let next = engine::settled_in(k, c, p, t, message, job.drop_empty, w)->Have_0;
    let s = StepV {
        orig: c,
        info,
        from,
        parent: w.parent,
        onto: w.tree,
        trees,
        new: if engine::vanishes(p, t, w, job.drop_empty) {
            None
        } else {
            next.parent
        },
    };
    the_last_message_counts(job.recipe, c);
    assert(is_commit(k, c, info));
    assert(tree_of_first(k, info.parents, from)) by {
        if info.parents.len() > 0 {
            assert(is_commit(k, info.parents[0], store::commit_in(k, info.parents[0])->Have_0));
        }
    }
    assert(says(job.recipe, c, message));
    (s, next)
}

proof fn lemma_trace(k: Known, job: JobV, i: int, w: WalkedV) -> (trace: Seq<StepV>)
    requires
        0 <= i <= job.order.len(),
    ensures
        engine::replayed_in(k, job, i, w) matches AskV::Have(end) ==> follows(
            k,
            job,
            i,
            w.parent,
            w.tree,
            trace,
        ) && shows(job, i, w, end, trace),
    decreases job.order.len() - i,
{
    let none = Seq::<StepV>::empty();
    if !(engine::replayed_in(k, job, i, w) is Have) {
        none
    } else if i == job.order.len() {
        reveal(Seq::filter);
        assert(left(none) =~= Seq::<Oid>::empty());
        assert(bared(none) =~= Seq::<Oid>::empty());
        assert(w.dropped + left(none) =~= w.dropped);
        assert(w.unsigned + bared(none) =~= w.unsigned);
        none
    } else {
        let (s, next) = lemma_one_step(k, job, i, w);
        let rest = lemma_trace(k, job, i + 1, next);
        let trace = seq![s] + rest;
        let end = engine::replayed_in(k, job, i, w)->Have_0;
        lemma_step_map(job, i, w, next, end, s, rest);
        lemma_follows(k, job, i, w.parent, w.tree, s, rest);
        lemma_told(job, i, w, next, end, s, rest);
        trace
    }
}

proof fn lemma_follows(
    k: Known,
    job: JobV,
    i: int,
    parent: Option<Oid>,
    onto: Oid,
    s: StepV,
    rest: Seq<StepV>,
)
    requires
        0 <= i < job.order.len(),
        steps(k, job, s),
        s.orig == job.order[i],
        s.parent == parent,
        s.onto == onto,
        follows(k, job, i + 1, s.after(), s.content(), rest),
    ensures
        follows(k, job, i, parent, onto, seq![s] + rest),
{
    let trace = seq![s] + rest;
    assert forall|x: int| 0 <= x < trace.len() implies {
        &&& steps(k, job, #[trigger] trace[x])
        &&& trace[x].orig == job.order[i + x]
        &&& trace[x].parent == if x == 0 {
            parent
        } else {
            trace[x - 1].after()
        }
        &&& trace[x].onto == if x == 0 {
            onto
        } else {
            trace[x - 1].content()
        }
    } by {
        if x > 0 {
            assert(trace[x] == rest[x - 1]);
            assert(steps(k, job, rest[x - 1]));
            if x > 1 {
                assert(trace[x - 1] == rest[x - 2]);
            }
        }
    }
}

proof fn lemma_told(
    job: JobV,
    i: int,
    w: WalkedV,
    next: WalkedV,
    end: WalkedV,
    s: StepV,
    rest: Seq<StepV>,
)
    requires
        next.parent == s.after(),
        shows(job, i + 1, next, end, rest),
        next.dropped == if s.new is None {
            w.dropped.push(s.orig)
        } else {
            w.dropped
        },
        next.unsigned == if s.info.signed && s.new is Some && s.new != Some(s.orig) {
            w.unsigned.push(s.orig)
        } else {
            w.unsigned
        },
    ensures
        end.parent == (seq![s] + rest).last().after(),
        end.dropped == w.dropped + left(seq![s] + rest),
        end.unsigned == w.unsigned + bared(seq![s] + rest),
{
    let trace = seq![s] + rest;
    lemma_first(s, rest);
    assert(end.dropped =~= w.dropped + left(trace));
    assert(end.unsigned =~= w.unsigned + bared(trace));
    if rest.len() > 0 {
        assert(trace.last() == rest.last());
    }
}

proof fn lemma_step_map(
    job: JobV,
    i: int,
    w: WalkedV,
    next: WalkedV,
    end: WalkedV,
    s: StepV,
    rest: Seq<StepV>,
)
    requires
        0 <= i < job.order.len(),
        rest.len() == job.order.len() - i - 1,
        shows(job, i + 1, next, end, rest),
        next.map == match s.after() {
            Some(n) => w.map.push((job.order[i], n)),
            None => w.map,
        },
    ensures
        forall|c: Oid|
            (forall|x: int| i <= x < job.order.len() ==> #[trigger] job.order[x] != c)
                ==> #[trigger] engine::image(end.map, c) == engine::image(w.map, c),
        job.order.no_duplicates() && (forall|x: int|
            i <= x < job.order.len() ==> engine::image(w.map, #[trigger] job.order[x]) is None)
            ==> forall|x: int|
            0 <= x < (seq![s] + rest).len() ==> engine::image(end.map, job.order[i + x]) == (
            #[trigger] (seq![s] + rest)[x]).after(),
{
    let c0 = job.order[i];
    let trace = seq![s] + rest;
    if let Some(n) = s.after() {
        assert(w.map.push((c0, n)).drop_last() =~= w.map);
    }
    assert(engine::image(next.map, c0) == match s.after() {
        Some(n) => Some(n),
        None => engine::image(w.map, c0),
    });
    assert forall|c: Oid| c != c0 implies #[trigger] engine::image(next.map, c) == engine::image(
        w.map,
        c,
    ) by {}
    assert forall|c: Oid|
        (forall|x: int| i <= x < job.order.len() ==> #[trigger] job.order[x] != c) implies #[trigger] engine::image(
        end.map,
        c,
    ) == engine::image(w.map, c) by {
        assert(job.order[i] != c);
    }
    if job.order.no_duplicates() && (forall|x: int|
        i <= x < job.order.len() ==> engine::image(w.map, #[trigger] job.order[x]) is None) {
        assert forall|x: int| i + 1 <= x < job.order.len() implies engine::image(
            next.map,
            #[trigger] job.order[x],
        ) is None by {
            assert(job.order[x] != job.order[i]);
        }
        assert forall|x: int| 0 <= x < trace.len() implies engine::image(
            end.map,
            job.order[i + x],
        ) == (#[trigger] trace[x]).after() by {
            if x == 0 {
                assert forall|y: int| i + 1 <= y < job.order.len() implies #[trigger] job.order[y]
                    != c0 by {}
                assert(engine::image(end.map, c0) == engine::image(next.map, c0));
            } else {
                assert(trace[x] == rest[x - 1]);
                assert(job.order[i + 1 + (x - 1)] == job.order[i + x]);
            }
        }
    }
}

proof fn lemma_carried(ids: Seq<Oid>, i: int, map: Seq<(Oid, Oid)>, carry: Option<Oid>)
    requires
        0 <= i <= ids.len(),
        ids.no_duplicates(),
    ensures
        ({
            let full = engine::carried(ids, i, map, carry);
            &&& forall|c: Oid|
                (forall|j: int| i <= j < ids.len() ==> #[trigger] ids[j] != c)
                    ==> #[trigger] engine::image(full, c) == engine::image(map, c)
            &&& forall|j: int|
                i <= j < ids.len() ==> engine::image(full, #[trigger] ids[j]) == match engine::image(
                    map,
                    ids[j],
                ) {
                    Some(n) => Some(n),
                    None => if j == i {
                        carry
                    } else {
                        engine::image(full, ids[j - 1])
                    },
                }
        }),
    decreases ids.len() - i,
{
    if i < ids.len() {
        let full = engine::carried(ids, i, map, carry);
        let (m, c) = match (engine::image(map, ids[i]), carry) {
            (Some(n), _) => (map, Some(n)),
            (None, Some(p)) => (map.push((ids[i], p)), carry),
            (None, None) => (map, None),
        };
        if engine::image(map, ids[i]) is None && carry is Some {
            assert(m.drop_last() =~= map);
        }
        lemma_carried(ids, i + 1, m, c);
        assert(full == engine::carried(ids, i + 1, m, c));
        assert forall|x: Oid| x != ids[i] implies #[trigger] engine::image(m, x) == engine::image(
            map,
            x,
        ) by {}
        assert forall|j: int| i + 1 <= j < ids.len() implies #[trigger] ids[j] != ids[i] by {}
        assert(engine::image(full, ids[i]) == engine::image(m, ids[i]));
        assert forall|x: Oid|
            (forall|j: int| i <= j < ids.len() ==> #[trigger] ids[j] != x) implies #[trigger] engine::image(
            full,
            x,
        ) == engine::image(map, x) by {
            assert(ids[i] != x);
        }
    }
}

/// The tree that a replay starts on: that of the base, or the empty tree.
pub open spec fn tree_at_base(k: Known, base: Option<Oid>, tree: Oid) -> bool {
    match base {
        Some(b) => exists|i: CommitV| #[trigger] is_commit(k, b, i) && i.tree == tree,
        None => k.contains_key(QueryV::EmptyTree) && k[QueryV::EmptyTree] == AnswerV::Object(tree),
    }
}

/// What a replay is: from the base up, each commit of the order is one step onto the step
/// before it. The new tip is where the last step stands. Reported are the commits that
/// were left out and those that lost their signature, in order and no others. A commit
/// that was replayed went where its step stands; one of the range that was not replayed
/// went where the one before it in the range went.
pub proof fn a_replay_goes_step_by_step(k: Known, job: JobV) -> (trace: Seq<StepV>)
    requires
        job.order.no_duplicates(),
        job.ids.no_duplicates(),
    ensures
        engine::replay_in(k, job) matches AskV::Have(r) ==> {
            &&& exists|tree: Oid| #[trigger]
                tree_at_base(k, job.base, tree) && follows(k, job, 0, job.base, tree, trace)
            &&& Some(r.tip) == if trace.len() > 0 && trace.last().after() is Some {
                trace.last().after()
            } else if trace.len() == 0 && job.base is Some {
                job.base
            } else {
                Some(job.tip)
            }
            &&& r.dropped == left(trace)
            &&& r.unsigned == bared(trace)
            &&& forall|x: int|
                0 <= x < trace.len() && trace[x].after() is Some ==> engine::image(
                    r.map,
                    #[trigger] job.order[x],
                ) == trace[x].after()
            &&& forall|j: int|
                0 <= j < job.ids.len() && !job.order.contains(#[trigger] job.ids[j])
                    ==> engine::image(r.map, job.ids[j]) == if j == 0 {
                    job.base
                } else {
                    engine::image(r.map, job.ids[j - 1])
                }
        },
{
    if engine::replay_in(k, job) is Have {
        let w = engine::started_in(k, job.base)->Have_0;
        if let Some(b) = job.base {
            assert(is_commit(k, b, store::commit_in(k, b)->Have_0));
        }
        assert(tree_at_base(k, job.base, w.tree));
        let trace = lemma_trace(k, job, 0, w);
        let end = engine::replayed_in(k, job, 0, w)->Have_0;
        let r = engine::concluded(job, end);
        assert(w.dropped + left(trace) =~= left(trace));
        assert(w.unsigned + bared(trace) =~= bared(trace));
        assert forall|c: Oid| #[trigger] engine::image(w.map, c) is None by {}
        lemma_carried(job.ids, 0, end.map, job.base);
        assert forall|x: int|
            0 <= x < trace.len() && trace[x].after() is Some implies engine::image(
            r.map,
            #[trigger] job.order[x],
        ) == trace[x].after() by {
            assert(engine::image(end.map, job.order[0 + x]) == trace[x].after());
            replay_laws::lemma_carried_keeps(job.ids, 0, end.map, job.base, job.order[x]);
        }
        assert forall|j: int|
            0 <= j < job.ids.len() && !job.order.contains(
                #[trigger] job.ids[j],
            ) implies engine::image(r.map, job.ids[j]) == if j == 0 {
            job.base
        } else {
            engine::image(r.map, job.ids[j - 1])
        } by {
            assert forall|x: int| 0 <= x < job.order.len() implies #[trigger] job.order[x]
                != job.ids[j] by {
                assert(job.order.contains(job.order[x]));
            }
            assert(engine::image(end.map, job.ids[j]) == engine::image(w.map, job.ids[j]));
        }
        trace
    } else {
        Seq::empty()
    }
}

} // verus!
