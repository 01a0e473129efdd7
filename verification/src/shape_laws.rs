//! What holds of every plan that changes the shape of a stack.

use crate::engine::{EditV, RecipeV};
use crate::git::StackV;
use crate::oid::Oid;
use crate::recipe;
use crate::recipe::ShapedV;
use crate::text;
use crate::ErrorV;
use vstd::prelude::*;

verus! {

proof fn lemma_common(a: Seq<Oid>, b: Seq<Oid>, n: int)
    requires
        0 <= n <= a.len(),
        n <= b.len(),
    ensures
        n <= recipe::common(a, b, n) <= a.len(),
        recipe::common(a, b, n) <= b.len(),
        forall|i: int| n <= i < recipe::common(a, b, n) ==> a[i] == b[i],
        recipe::common(a, b, n) < a.len() && recipe::common(a, b, n) < b.len() ==> a[recipe::common(
            a,
            b,
            n,
        )] != b[recipe::common(a, b, n)],
    decreases a.len() - n,
{
    if n < a.len() && n < b.len() && a[n] == b[n] {
        lemma_common(a, b, n + 1);
    }
}

/// A shape plan leaves the commits alone that come before its first change, and
/// replays the rest in the wanted order on top of them.
pub proof fn a_plan_gives_the_wanted_order(
    s: StackV,
    head: Oid,
    want: Seq<Oid>,
    recipe: RecipeV,
    edited: Option<int>,
)
    requires
        s.rows.len() > 0,
        edited matches Some(e) ==> 0 <= e,
    ensures
        recipe::shaped_of(s, head, want, recipe, edited) matches Ok(p) ==> {
            let lo = recipe::starts_at(s.ids(), want, edited);
            &&& 0 <= lo < s.rows.len()
            &&& s.ids().take(lo) + p.order == want
            &&& p.base == recipe::first_parent(s.rows[lo].1.parents)
            &&& p.tip == head
        },
{
    let ids = s.ids();
    lemma_common(ids, want, 0);
    let lo = recipe::starts_at(ids, want, edited);
    if let Ok(p) = recipe::shaped_of(s, head, want, recipe, edited) {
        assert(ids.take(lo) =~= want.take(lo));
        assert(want.take(lo) + want.skip(lo) =~= want);
    }
}

// ── drop ────────────────────────────────────────────────────────────────────

proof fn lemma_without_join(a: Seq<Oid>, b: Seq<Oid>, rev: Oid)
    ensures
        recipe::without(a + b, rev) == recipe::without(a, rev) + recipe::without(b, rev),
    decreases b.len(),
{
    if b.len() == 0 {
        assert(a + b =~= a);
        assert(recipe::without(a, rev) + recipe::without(b, rev) =~= recipe::without(a, rev));
    } else {
        lemma_without_join(a, b.drop_last(), rev);
        assert((a + b).drop_last() =~= a + b.drop_last());
        assert(recipe::without(a + b, rev) =~= recipe::without(a, rev) + recipe::without(b, rev));
    }
}

proof fn lemma_without_absent(a: Seq<Oid>, rev: Oid)
    requires
        !a.contains(rev),
    ensures
        recipe::without(a, rev) == a,
    decreases a.len(),
{
    if a.len() > 0 {
        assert(a =~= a.drop_last().push(a.last()));
        assert(a[a.len() - 1] == a.last());
        assert(!a.drop_last().contains(rev)) by {
            if a.drop_last().contains(rev) {
                let j = a.drop_last().index_of(rev);
                assert(a[j] == rev);
            }
        }
        lemma_without_absent(a.drop_last(), rev);
    }
}

proof fn lemma_without_alone(rev: Oid)
    ensures
        recipe::without(seq![rev], rev) == Seq::<Oid>::empty(),
{
    let none = Seq::<Oid>::empty();
    assert(seq![rev].drop_last() =~= none);
    assert(recipe::without(none, rev) == none);
}

proof fn lemma_cut(ids: Seq<Oid>, i: int)
    requires
        0 <= i < ids.len(),
        ids.no_duplicates(),
    ensures
        recipe::without(ids, ids[i]) == ids.take(i) + ids.skip(i + 1),
{
    let (a, b) = (ids.take(i), ids.skip(i + 1));
    let rev = ids[i];
    assert(!a.contains(rev)) by {
        if a.contains(rev) {
            let j = a.index_of(rev);
            assert(ids[j] == ids[i] && j < i);
        }
    }
    assert(!b.contains(rev)) by {
        if b.contains(rev) {
            let j = b.index_of(rev);
            assert(ids[i + 1 + j] == ids[i]);
        }
    }
    lemma_without_absent(a, rev);
    lemma_without_absent(b, rev);
    let one = seq![rev];
    lemma_without_alone(rev);
    assert(ids =~= a + one + b);
    lemma_without_join(a, one, rev);
    lemma_without_join(a + one, b, rev);
    assert(a + Seq::<Oid>::empty() =~= a);
}

/// Dropping a commit takes out that commit and nothing else: what came before it
/// and what came after it stay, in their order.
pub proof fn drop_keeps_the_others_in_order(ids: Seq<Oid>, i: int)
    requires
        0 <= i < ids.len(),
        ids.no_duplicates(),
    ensures
        recipe::without(ids, ids[i]) == ids.take(i) + ids.skip(i + 1),
        !recipe::without(ids, ids[i]).contains(ids[i]),
{
    lemma_cut(ids, i);
    let w = recipe::without(ids, ids[i]);
    if w.contains(ids[i]) {
        let j = w.index_of(ids[i]);
        if j < i {
            assert(ids[j] == ids[i]);
        } else {
            assert(ids[j + 1] == ids[i]);
        }
    }
}

// ── reorder ─────────────────────────────────────────────────────────────────

proof fn lemma_place_unique(ids: Seq<Oid>, i: int)
    requires
        0 <= i < ids.len(),
        ids.no_duplicates(),
    ensures
        recipe::place(ids, ids[i]) == Some(i),
{
    recipe::lemma_place(ids, ids[i]);
    assert(ids.contains(ids[i]));
}

/// The stack with the commit at `i` moved next to the one at `j`, told piece by
/// piece.
proof fn lemma_reordered(ids: Seq<Oid>, i: int, j: int, before: bool)
    requires
        0 <= i < ids.len(),
        0 <= j < ids.len(),
        i != j,
        ids.no_duplicates(),
    ensures
        ({
            let rest = ids.take(i) + ids.skip(i + 1);
            let at = if j < i {
                j
            } else {
                j - 1
            };
            &&& rest.no_duplicates()
            &&& !rest.contains(ids[i])
            &&& rest[at] == ids[j]
            &&& recipe::reordered(ids, ids[i], ids[j], before) == rest.insert(
                if before {
                    at
                } else {
                    at + 1
                },
                ids[i],
            )
        }),
{
    lemma_cut(ids, i);
    drop_keeps_the_others_in_order(ids, i);
    let rest = ids.take(i) + ids.skip(i + 1);
    let at = if j < i {
        j
    } else {
        j - 1
    };
    assert forall|x: int, y: int| 0 <= x < rest.len() && 0 <= y < rest.len() && x != y implies rest[x]
        != rest[y] by {
        let x2 = if x < i {
            x
        } else {
            x + 1
        };
        let y2 = if y < i {
            y
        } else {
            y + 1
        };
        assert(rest[x] == ids[x2] && rest[y] == ids[y2] && x2 != y2);
    }
    assert(rest[at] == ids[j]);
    lemma_place_unique(rest, at);
}

/// Moving a commit loses nothing, adds nothing, and keeps all the others in their
/// order.
pub proof fn reorder_is_a_permutation(ids: Seq<Oid>, i: int, j: int, before: bool)
    requires
        0 <= i < ids.len(),
        0 <= j < ids.len(),
        i != j,
        ids.no_duplicates(),
    ensures
        recipe::reordered(ids, ids[i], ids[j], before).to_multiset() == ids.to_multiset(),
        recipe::without(recipe::reordered(ids, ids[i], ids[j], before), ids[i])
            == recipe::without(ids, ids[i]),
{
    broadcast use vstd::seq_lib::group_to_multiset_ensures;

    lemma_reordered(ids, i, j, before);
    lemma_cut(ids, i);
    let rest = ids.take(i) + ids.skip(i + 1);
    let at = if j < i {
        j
    } else {
        j - 1
    };
    let p = if before {
        at
    } else {
        at + 1
    };
    let (a, b) = (rest.take(p), rest.skip(p));
    let one = seq![ids[i]];
    let r = rest.insert(p, ids[i]);
    assert(r =~= a + one + b);
    assert(rest =~= a + b);
    assert(ids =~= ids.take(i) + one + ids.skip(i + 1));
    vstd::seq_lib::lemma_multiset_commutative(a, one);
    vstd::seq_lib::lemma_multiset_commutative(a + one, b);
    vstd::seq_lib::lemma_multiset_commutative(a, b);
    vstd::seq_lib::lemma_multiset_commutative(ids.take(i), one);
    vstd::seq_lib::lemma_multiset_commutative(ids.take(i) + one, ids.skip(i + 1));
    vstd::seq_lib::lemma_multiset_commutative(ids.take(i), ids.skip(i + 1));
    assert(r.to_multiset() =~= ids.to_multiset());
    assert(!a.contains(ids[i])) by {
        if a.contains(ids[i]) {
            let n = a.index_of(ids[i]);
            assert(rest[n] == ids[i]);
        }
    }
    assert(!b.contains(ids[i])) by {
        if b.contains(ids[i]) {
            let n = b.index_of(ids[i]);
            assert(rest[p + n] == ids[i]);
        }
    }
    lemma_without_absent(a, ids[i]);
    lemma_without_absent(b, ids[i]);
    lemma_without_alone(ids[i]);
    lemma_without_join(a, one, ids[i]);
    lemma_without_join(a + one, b, ids[i]);
    assert(a + Seq::<Oid>::empty() =~= a);
}

/// A commit that was moved stands right before, or right after, its anchor.
pub proof fn reorder_lands_next_to_the_anchor(ids: Seq<Oid>, i: int, j: int, before: bool)
    requires
        0 <= i < ids.len(),
        0 <= j < ids.len(),
        i != j,
        ids.no_duplicates(),
    ensures
        ({
            let r = recipe::reordered(ids, ids[i], ids[j], before);
            exists|n: int|
                0 <= n < r.len() - 1 && if before {
                    #[trigger] r[n] == ids[i] && r[n + 1] == ids[j]
                } else {
                    r[n] == ids[j] && r[n + 1] == ids[i]
                }
        }),
{
    lemma_reordered(ids, i, j, before);
    let r = recipe::reordered(ids, ids[i], ids[j], before);
    let at = if j < i {
        j
    } else {
        j - 1
    };
    if before {
        assert(r[at] == ids[i] && r[at + 1] == ids[j]);
    } else {
        assert(r[at] == ids[j] && r[at + 1] == ids[i]);
    }
}

/// Of two neighbours, moving the newer before the older is the same as moving the
/// older after the newer.
pub proof fn after_is_the_mirror_of_before(ids: Seq<Oid>, i: int)
    requires
        0 <= i < ids.len() - 1,
        ids.no_duplicates(),
    ensures
        recipe::reordered(ids, ids[i + 1], ids[i], true) == recipe::reordered(
            ids,
            ids[i],
            ids[i + 1],
            false,
        ),
{
    lemma_reordered(ids, i + 1, i, true);
    lemma_reordered(ids, i, i + 1, false);
    assert(recipe::reordered(ids, ids[i + 1], ids[i], true) =~= recipe::reordered(
        ids,
        ids[i],
        ids[i + 1],
        false,
    ));
}

// ── squash and split ────────────────────────────────────────────────────────

/// Squashing replays the parent with the child's change folded in, then the
/// commits above the child; nothing below the parent is touched.
pub proof fn squash_folds_the_child_into_its_parent(
    s: StackV,
    head: Oid,
    i: int,
    msg: Option<Seq<char>>,
)
    requires
        0 < i < s.rows.len(),
        s.ids().no_duplicates(),
    ensures
        recipe::squashed_of(s, head, s.ids()[i], msg) matches Ok(p) ==> {
            &&& p.order == seq![s.ids()[i - 1]] + s.ids().skip(i + 1)
            &&& p.base == recipe::first_parent(s.rows[i - 1].1.parents)
            &&& p.recipe.edits == seq![(s.ids()[i - 1], EditV::ApplyChange(s.ids()[i]))]
            &&& msg is None ==> p.recipe.message_for(s.ids()[i - 1]) == Some(
                recipe::both_messages(s.rows[i - 1].1.message, s.rows[i].1.message),
            )
        },
{
    let ids = s.ids();
    lemma_place_unique(ids, i);
    lemma_cut(ids, i);
    let want = recipe::without(ids, ids[i]);
    if let Ok(p) = recipe::squashed_of(s, head, ids[i], msg) {
        a_plan_gives_the_wanted_order(s, head, want, p.recipe, Some(i - 1));
        lemma_common(ids, want, 0);
        assert forall|j: int| 0 <= j < i implies ids[j] == want[j] by {}
        assert(recipe::common(ids, want, 0) >= i) by {
            let c = recipe::common(ids, want, 0);
            if c < i {
                assert(ids[c] == want[c]);
            }
        }
        assert(p.order =~= seq![ids[i - 1]] + ids.skip(i + 1));
        assert(p.recipe.edits =~= seq![(ids[i - 1], EditV::ApplyChange(ids[i]))]);
        assert(p.recipe.messages.last().0 == ids[i - 1]);
    }
}

/// Splitting replays the new commit right before the one it was taken from; every
/// commit of the stack is still there, in its order.
pub proof fn split_only_adds_a_commit(s: StackV, head: Oid, i: int, first: Oid)
    requires
        0 <= i < s.rows.len(),
        s.ids().no_duplicates(),
        !s.ids().contains(first),
    ensures
        recipe::split_of(s, head, s.ids()[i], first) matches Ok(p) && {
            &&& p.order == seq![first] + s.ids().skip(i)
            &&& p.base == recipe::first_parent(s.rows[i].1.parents)
            &&& p.recipe == RecipeV::empty()
        },
{
    let ids = s.ids();
    lemma_place_unique(ids, i);
    let want = ids.insert(i, first);
    lemma_common(ids, want, 0);
    let c = recipe::common(ids, want, 0);
    assert(ids[i] != first);
    assert(c == i) by {
        if c > i {
            assert(ids[i] == want[i]);
        } else if c < i {
            assert(ids[c] == want[c]);
        }
    }
    assert(want[i] == first);
    assert(want != ids);
    assert(want.skip(i) =~= seq![first] + ids.skip(i));
}

// ── the plans, by what they do to the stack ─────────────────────────────────

/// The plan leaves the first `lo` commits of the stack alone and replays its order on
/// top of them, up to the tip: it starts from the first parent of the commit at `lo`,
/// or from nothing where that has none.
pub open spec fn starts_from(s: StackV, head: Oid, p: ShapedV, lo: int) -> bool {
    &&& 0 <= lo < s.rows.len()
    &&& p.tip == head
    &&& s.rows[lo].1.parents.len() == 0 ==> p.base is None
    &&& s.rows[lo].1.parents.len() > 0 ==> p.base == Some(s.rows[lo].1.parents[0])
}

/// The plan changes neither the content nor the message of any commit.
pub open spec fn edits_nothing(p: ShapedV) -> bool {
    p.recipe.edits.len() == 0 && p.recipe.messages.len() == 0
}

/// Nothing is planned for a commit that is not in the stack.
pub proof fn a_commit_outside_the_stack_is_refused(
    s: StackV,
    head: Oid,
    rev: Oid,
    other: Oid,
    before: bool,
    msg: Option<Seq<char>>,
)
    requires
        !s.ids().contains(rev),
    ensures
        recipe::dropped_of(s, head, rev) == Err::<ShapedV, ErrorV>(ErrorV::TargetNotAncestor),
        recipe::squashed_of(s, head, rev, msg) == Err::<ShapedV, ErrorV>(
            ErrorV::TargetNotAncestor,
        ),
        recipe::split_of(s, head, rev, other) == Err::<ShapedV, ErrorV>(ErrorV::TargetNotAncestor),
        rev != other ==> recipe::reordered_of(s, head, rev, other, before) == Err::<
            ShapedV,
            ErrorV,
        >(ErrorV::TargetNotAncestor),
        rev != other ==> recipe::reordered_of(s, head, other, rev, before) == Err::<
            ShapedV,
            ErrorV,
        >(ErrorV::TargetNotAncestor),
        recipe::reordered_of(s, head, rev, rev, before) is Err,
{
    recipe::lemma_place(s.ids(), rev);
}

/// A reorder is planned unless the commit stands where it is to go. Below the plan and
/// in it stand the commits of the stack, each once: without the one that moves they are
/// in the order they had, and that one stands immediately before the anchor or
/// immediately after it, as asked, whichever of the two was the older. No commit is
/// replayed that need not be, and none is edited.
pub proof fn a_reorder_moves_one_commit_next_to_its_anchor(
    s: StackV,
    head: Oid,
    i: int,
    j: int,
    before: bool,
)
    requires
        0 <= i < s.rows.len(),
        0 <= j < s.rows.len(),
        i != j,
        s.ids().no_duplicates(),
    ensures
        recipe::reordered_of(s, head, s.ids()[i], s.ids()[j], before) is Err <==> if before {
            i + 1 == j
        } else {
            j + 1 == i
        },
        recipe::reordered_of(s, head, s.ids()[i], s.ids()[j], before) matches Ok(p) ==> {
            let ids = s.ids();
            let lo = ids.len() - p.order.len();
            let full = ids.take(lo) + p.order;
            &&& starts_from(s, head, p, lo)
            &&& edits_nothing(p)
            &&& full.to_multiset() == ids.to_multiset()
            &&& exists|n: int|
                {
                    &&& 0 <= n < full.len()
                    &&& #[trigger] full[n] == ids[i]
                    &&& full.remove(n) == ids.remove(i)
                    &&& before ==> n + 1 < full.len() && full[n + 1] == ids[j]
                    &&& !before ==> 0 < n && full[n - 1] == ids[j]
                }
            &&& p.order[0] != ids[lo]
        },
{
    let ids = s.ids();
    let (rev, anchor) = (ids[i], ids[j]);
    let want = recipe::reordered(ids, rev, anchor, before);
    lemma_place_unique(ids, i);
    lemma_place_unique(ids, j);
    lemma_reordered(ids, i, j, before);
    reorder_is_a_permutation(ids, i, j, before);
    lemma_common(ids, want, 0);
    let rest = ids.take(i) + ids.skip(i + 1);
    assert(rest =~= ids.remove(i));
    let at = if j < i {
        j
    } else {
        j - 1
    };
    let n = if before {
        at
    } else {
        at + 1
    };
    assert(want == rest.insert(n, rev));
    assert(want.len() == ids.len());
    assert(want.remove(n) =~= rest);
    if n == i {
        assert(want =~= ids);
    } else {
        assert(want[n] == rev);
        assert(ids[n] != rev);
        assert(want != ids);
        let c = recipe::common(ids, want, 0);
        assert(c < ids.len()) by {
            if c >= ids.len() {
                assert(ids[n] == want[n]);
            }
        }
        if let Ok(p) = recipe::reordered_of(s, head, rev, anchor, before) {
            a_plan_gives_the_wanted_order(s, head, want, p.recipe, None);
            let lo = recipe::starts_at(ids, want, None);
            assert(lo == c);
            assert(p.order.len() == want.len() - lo);
            let full = ids.take(lo) + p.order;
            assert(full == want);
            assert(full[n] == ids[i]);
            assert(p.order[0] == want[lo]);
        }
    }
}

/// A drop is planned unless it would leave nothing. The commits that came after the one
/// that goes are replayed in their order on what came before it: it is gone, all the
/// others are there, and none is edited.
pub proof fn a_drop_replays_what_came_after_on_what_came_before(s: StackV, head: Oid, i: int)
    requires
        0 <= i < s.rows.len(),
        s.ids().no_duplicates(),
    ensures
        recipe::dropped_of(s, head, s.ids()[i]) is Err <==> i + 1 == s.rows.len()
            && s.rows[i].1.parents.len() == 0,
        recipe::dropped_of(s, head, s.ids()[i]) matches Ok(p) ==> {
            &&& p.order == s.ids().skip(i + 1)
            &&& s.ids().take(i) + p.order == s.ids().remove(i)
            &&& starts_from(s, head, p, i)
            &&& edits_nothing(p)
        },
{
    let ids = s.ids();
    lemma_place_unique(ids, i);
    lemma_cut(ids, i);
    let want = recipe::without(ids, ids[i]);
    assert(want =~= ids.remove(i));
    lemma_common(ids, want, 0);
    let c = recipe::common(ids, want, 0);
    assert(want.len() == ids.len() - 1);
    assert(c == i) by {
        if c < i {
            assert(ids[c] == want[c]);
        } else if c > i {
            assert(ids[i] == want[i]);
            assert(want[i] == ids[i + 1]);
        }
    }
    assert(want.skip(i) =~= ids.skip(i + 1));
    assert(ids.take(i) + ids.skip(i + 1) =~= ids.remove(i));
}

/// A squash is planned for every commit but the oldest. The commit goes, its change is
/// applied at the commit below it and nowhere else, and only that one gets another
/// message. What came after the two is replayed in its order.
pub proof fn a_squash_folds_a_commit_into_the_one_below(
    s: StackV,
    head: Oid,
    i: int,
    msg: Option<Seq<char>>,
)
    requires
        0 <= i < s.rows.len(),
        s.ids().no_duplicates(),
    ensures
        recipe::squashed_of(s, head, s.ids()[i], msg) is Err <==> i == 0,
        recipe::squashed_of(s, head, s.ids()[i], msg) matches Ok(p) ==> {
            let ids = s.ids();
            &&& p.order == seq![ids[i - 1]] + ids.skip(i + 1)
            &&& ids.take(i - 1) + p.order == ids.remove(i)
            &&& starts_from(s, head, p, i - 1)
            &&& p.recipe.edits == seq![(ids[i - 1], EditV::ApplyChange(ids[i]))]
            &&& p.recipe.messages.len() == 1
            &&& p.recipe.messages[0].0 == ids[i - 1]
            &&& match msg {
                Some(m) => p.recipe.messages[0].1 == m,
                None => keeps_both(
                    p.recipe.messages[0].1,
                    s.rows[i - 1].1.message,
                    s.rows[i].1.message,
                ),
            }
        },
{
    let ids = s.ids();
    lemma_place_unique(ids, i);
    lemma_cut(ids, i);
    let want = recipe::without(ids, ids[i]);
    if i > 0 {
        lemma_common(ids, want, 0);
        assert(recipe::common(ids, want, 0) >= i) by {
            let c = recipe::common(ids, want, 0);
            if c < i {
                assert(ids[c] == want[c]);
            }
        }
        assert(want.len() != ids.len());
        squash_folds_the_child_into_its_parent(s, head, i, msg);
        a_joint_message_keeps_both(s.rows[i - 1].1.message, s.rows[i].1.message);
        if let Ok(p) = recipe::squashed_of(s, head, ids[i], msg) {
            assert(ids.take(i - 1) + p.order =~= ids.remove(i));
        }
    }
}

/// The message holds the whole of the parent's, then a blank line, then the whole of the
/// child's and one newline; each of the two up to the white space at its end.
pub open spec fn keeps_both(m: Seq<char>, parent: Seq<char>, child: Seq<char>) -> bool {
    exists|a: int, b: int|
        {
            &&& #[trigger] ends_in_white(parent, a)
            &&& #[trigger] ends_in_white(child, b)
            &&& m.len() == a + 2 + b + 1
            &&& m.subrange(0, a) == parent.subrange(0, a)
            &&& m[a] == '\n'
            &&& m[a + 1] == '\n'
            &&& m.subrange(a + 2, a + 2 + b) == child.subrange(0, b)
            &&& m[a + 2 + b] == '\n'
        }
}

/// From `n` on the text is white space, and before that it is not.
pub open spec fn ends_in_white(s: Seq<char>, n: int) -> bool {
    &&& 0 <= n <= s.len()
    &&& forall|i: int| n <= i < s.len() ==> text::is_white(#[trigger] s[i])
    &&& n > 0 ==> !text::is_white(s[n - 1])
}

/// The message of two commits that become one keeps the messages of both.
pub proof fn a_joint_message_keeps_both(parent: Seq<char>, child: Seq<char>)
    ensures
        keeps_both(recipe::both_messages(parent, child), parent, child),
{
    reveal_strlit("\n\n");
    reveal_strlit("\n");
    text::trimming_the_end_takes_only_white_space_off(parent);
    text::trimming_the_end_takes_only_white_space_off(child);
    let m = recipe::both_messages(parent, child);
    let a = text::trimmed_end(parent).len() as int;
    let b = text::trimmed_end(child).len() as int;
    assert(ends_in_white(parent, a));
    assert(ends_in_white(child, b));
    assert(m.subrange(0, a) =~= parent.subrange(0, a));
    assert(m.subrange(a + 2, a + 2 + b) =~= child.subrange(0, b));
}

/// A reword keeps what was typed, up to the white space at its end, and ends it with one
/// newline.
pub proof fn a_reword_keeps_what_was_typed(msg: Seq<char>)
    ensures
        exists|n: int|
            {
                &&& #[trigger] ends_in_white(msg, n)
                &&& recipe::reworded(msg).len() == n + 1
                &&& recipe::reworded(msg).subrange(0, n) == msg.subrange(0, n)
                &&& recipe::reworded(msg)[n] == '\n'
            },
{
    reveal_strlit("\n");
    text::trimming_the_end_takes_only_white_space_off(msg);
    let n = text::trimmed_end(msg).len() as int;
    assert(ends_in_white(msg, n));
    assert(recipe::reworded(msg).subrange(0, n) =~= msg.subrange(0, n));
}

/// A split is planned for every commit: the new commit is replayed right before the one
/// it is taken from, and that one and all that came after it follow in their order. None
/// of them is edited.
pub proof fn a_split_puts_a_commit_before_another(s: StackV, head: Oid, i: int, first: Oid)
    requires
        0 <= i < s.rows.len(),
        s.ids().no_duplicates(),
        !s.ids().contains(first),
    ensures
        recipe::split_of(s, head, s.ids()[i], first) matches Ok(p) && {
            &&& p.order == seq![first] + s.ids().skip(i)
            &&& starts_from(s, head, p, i)
            &&& edits_nothing(p)
        },
{
    split_only_adds_a_commit(s, head, i, first);
    lemma_place_unique(s.ids(), i);
}

/// A stack that is brought into an order of one's own is replayed in it from where the
/// two first differ; nothing is edited. It is refused where they do not differ, and
/// where nothing would be left.
pub proof fn a_reshape_gives_the_order_that_was_asked_for(s: StackV, head: Oid, want: Seq<Oid>)
    requires
        s.rows.len() > 0,
    ensures
        want == s.ids() ==> recipe::shaped_of(s, head, want, RecipeV::empty(), None) is Err,
        recipe::shaped_of(s, head, want, RecipeV::empty(), None) is Err ==> want == s.ids()
            || want.len() < s.rows.len(),
        recipe::shaped_of(s, head, want, RecipeV::empty(), None) matches Ok(p) ==> {
            let lo = want.len() - p.order.len();
            &&& starts_from(s, head, p, lo)
            &&& s.ids().take(lo) + p.order == want
            &&& edits_nothing(p)
            &&& p.order.len() > 0 && lo + 1 < s.rows.len() ==> p.order[0] != s.ids()[lo]
        },
{
    let ids = s.ids();
    lemma_common(ids, want, 0);
    a_plan_gives_the_wanted_order(s, head, want, RecipeV::empty(), None);
    let lo = recipe::starts_at(ids, want, None);
    if let Ok(p) = recipe::shaped_of(s, head, want, RecipeV::empty(), None) {
        assert((ids.take(lo) + p.order).len() == want.len());
    }
}

} // verus!
