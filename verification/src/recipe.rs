//! Plans: a recipe plus the range to replay, for each operation. Selection lives
//! here; execution lives in `engine`.

use crate::engine;
use crate::engine::{Edit, EditV, Recipe, RecipeV};
use crate::git;
use crate::git::{Reach, Stack, StackV, Walk};
use crate::oid::Oid;
use crate::store;
use crate::store::{Answer, Ask, AskV, CommitInfo, CommitV, Known, Query, QueryV, Seen};
use crate::text;
use crate::{Error, ErrorV};
use vstd::prelude::*;

verus! {

/// A recipe plus the range to replay.
#[derive(Debug)]
pub struct Plan {
    pub recipe: Recipe,
    pub base: Option<Oid>,
    pub tip: Oid,
}

/// A plan that replays an EXPLICIT commit order — the shape operations. `order`
/// is oldest first and may drop, permute, or insert relative to the real graph.
#[derive(Debug)]
pub struct Shaped {
    pub recipe: Recipe,
    pub base: Option<Oid>,
    pub tip: Oid,
    pub order: Vec<Oid>,
}

/// A [`Plan`] by its contents.
#[verifier::ext_equal]
pub struct PlanV {
    pub recipe: RecipeV,
    pub base: Option<Oid>,
    pub tip: Oid,
}

/// A [`Shaped`] by its contents.
#[verifier::ext_equal]
pub struct ShapedV {
    pub recipe: RecipeV,
    pub base: Option<Oid>,
    pub tip: Oid,
    pub order: Seq<Oid>,
}

impl View for Plan {
    type V = PlanV;

    open spec fn view(&self) -> PlanV {
        PlanV { recipe: self.recipe@, base: self.base, tip: self.tip }
    }
}

impl View for Shaped {
    type V = ShapedV;

    open spec fn view(&self) -> ShapedV {
        ShapedV { recipe: self.recipe@, base: self.base, tip: self.tip, order: self.order@ }
    }
}

/// The first parent among `parents`, if there is any.
pub open spec fn first_parent(parents: Seq<Oid>) -> Option<Oid> {
    if parents.len() == 0 {
        None
    } else {
        Some(parents[0])
    }
}

/// The first parent of `c`: the base to replay `c` itself from.
pub open spec fn parent_in(k: Known, c: Oid) -> AskV<Option<Oid>> {
    match store::commit_in(k, c) {
        AskV::Need(q) => AskV::Need(q),
        AskV::Fail(e) => AskV::Fail(e),
        AskV::Have(i) => AskV::Have(first_parent(i.parents)),
    }
}

fn parent_in_row(i: &CommitInfo) -> (p: Option<Oid>)
    ensures
        p == first_parent(i@.parents),
{
    if i.parents.len() == 0 {
        None
    } else {
        Some(i.parents[0])
    }
}

/// First parent of `c`, or none if it is a root commit — the `base` to replay `c`
/// itself from.
pub fn parent_of(seen: &Seen, c: Oid) -> (r: Ask<Option<Oid>>)
    ensures
        match r {
            Ask::Need(q) => parent_in(seen@, c) == AskV::<Option<Oid>>::Need(q@),
            Ask::Fail(e) => parent_in(seen@, c) == AskV::<Option<Oid>>::Fail(e@),
            Ask::Have(p) => parent_in(seen@, c) == AskV::Have(p),
        },
{
    match seen.commit(c) {
        Ask::Need(q) => Ask::Need(q),
        Ask::Fail(e) => Ask::Fail(e),
        Ask::Have(i) => Ask::Have(parent_in_row(i)),
    }
}

/// The rewritable stack below `head`: `base..head` if a base is given, otherwise
/// the linear run bounded by the first merge.
pub fn stack(base: Option<Oid>, head: Oid) -> (w: Walk)
    ensures
        w.wf(),
        w.base() == base,
        w.reach() == if base is Some {
            Reach::Base
        } else {
            Reach::Window
        },
        w.tip() == head,
        w.cur() == head,
        w.heard() == Map::<QueryV, store::AnswerV>::empty(),
        w.depth() == 0,
        forall|k: Known| #[trigger] w.agrees(k),
{
    if base.is_some() {
        git::linear_commits(base, head)
    } else {
        git::linear_window(head)
    }
}

// ── shape operations: drop / reorder / squash / split ───────────────────────
//
// All four are plan builders. The replay merges every commit against its OWN
// original parent tree, so it is an order-agnostic cherry-pick; these just hand
// it a different list.

/// The first place of `rev` in `ids`.
pub open spec fn place(ids: Seq<Oid>, rev: Oid) -> Option<int>
    decreases ids.len(),
{
    if ids.len() == 0 {
        None
    } else {
        match place(ids.drop_last(), rev) {
            Some(i) => Some(i),
            None => if ids.last() == rev {
                Some(ids.len() - 1)
            } else {
                None
            },
        }
    }
}

/// A place is where the commit stands, and there is one exactly if it is there.
pub proof fn lemma_place(ids: Seq<Oid>, rev: Oid)
    ensures
        place(ids, rev) matches Some(i) ==> 0 <= i < ids.len() && ids[i] == rev && forall|j: int|
            0 <= j < i ==> ids[j] != rev,
        place(ids, rev) is None <==> !ids.contains(rev),
    decreases ids.len(),
{
    if ids.len() > 0 {
        lemma_place(ids.drop_last(), rev);
        assert(ids =~= ids.drop_last().push(ids.last()));
        if ids.contains(rev) && !ids.drop_last().contains(rev) {
            let j = ids.index_of(rev);
            if j < ids.len() - 1 {
                assert(ids.drop_last()[j] == rev);
            }
        }
        if ids.drop_last().contains(rev) {
            let j = ids.drop_last().index_of(rev);
            assert(ids[j] == rev);
        }
    }
}

fn locate(ids: &Vec<Oid>, rev: Oid) -> (r: Result<usize, Error>)
    ensures
        match r {
            Ok(i) => place(ids@, rev) == Some(i as int) && i < ids@.len(),
            Err(e) => place(ids@, rev) is None && e@ == ErrorV::TargetNotAncestor,
        },
{
    let mut i: usize = 0;
    while i < ids.len()
        invariant
            0 <= i <= ids@.len(),
            place(ids@.take(i as int), rev) is None,
        decreases ids@.len() - i,
    {
        assert(ids@.take(i + 1).drop_last() =~= ids@.take(i as int));
        if ids[i] == rev {
            proof {
                lemma_place_prefix(ids@, i + 1, rev);
            }
            return Ok(i);
        }
        i += 1;
    }
    assert(ids@.take(i as int) =~= ids@);
    Err(Error::TargetNotAncestor)
}

proof fn lemma_place_prefix(ids: Seq<Oid>, n: int, rev: Oid)
    requires
        0 <= n <= ids.len(),
        place(ids.take(n), rev) is Some,
    ensures
        place(ids, rev) == place(ids.take(n), rev),
    decreases ids.len() - n,
{
    if n < ids.len() {
        assert(ids.take(n + 1).drop_last() =~= ids.take(n));
        lemma_place_prefix(ids, n + 1, rev);
    } else {
        assert(ids.take(n) =~= ids);
    }
}

/// `ids` without `rev`.
pub open spec fn without(ids: Seq<Oid>, rev: Oid) -> Seq<Oid>
    decreases ids.len(),
{
    if ids.len() == 0 {
        ids
    } else if ids.last() == rev {
        without(ids.drop_last(), rev)
    } else {
        without(ids.drop_last(), rev).push(ids.last())
    }
}

/// See [`without`].
fn leave_out(ids: &Vec<Oid>, rev: Oid) -> (v: Vec<Oid>)
    ensures
        v@ == without(ids@, rev),
{
    let mut v: Vec<Oid> = Vec::new();
    let mut i: usize = 0;
    while i < ids.len()
        invariant
            0 <= i <= ids@.len(),
            v@ == without(ids@.take(i as int), rev),
        decreases ids@.len() - i,
    {
        assert(ids@.take(i + 1).drop_last() =~= ids@.take(i as int));
        if ids[i] != rev {
            v.push(ids[i]);
        }
        i += 1;
    }
    assert(ids@.take(i as int) =~= ids@);
    v
}

/// How many commits the two lists have in common at their start, up to `n`.
pub open spec fn common(a: Seq<Oid>, b: Seq<Oid>, n: int) -> int
    decreases a.len() - n,
{
    if n < 0 || n >= a.len() || n >= b.len() || a[n] != b[n] {
        n
    } else {
        common(a, b, n + 1)
    }
}

/// Where a rewrite into `want` starts: where the shape first differs, or earlier
/// where a commit is edited in place; always at a commit of the stack.
pub open spec fn starts_at(ids: Seq<Oid>, want: Seq<Oid>, edited: Option<int>) -> int {
    let diff = common(ids, want, 0);
    let lo = match edited {
        Some(e) => if e < diff {
            e
        } else {
            diff
        },
        None => diff,
    };
    if lo > ids.len() - 1 {
        ids.len() - 1
    } else {
        lo
    }
}

/// `want` (the desired order, oldest first) as a plan, without the untouched
/// prefix.
pub open spec fn shaped_of(
    s: StackV,
    head: Oid,
    want: Seq<Oid>,
    recipe: RecipeV,
    edited: Option<int>,
) -> Result<ShapedV, ErrorV> {
    let ids = s.ids();
    let lo = starts_at(ids, want, edited);
    let base = first_parent(s.rows[lo].1.parents);
    if want == ids {
        Err(ErrorV::Empty("the stack already has that shape"@))
    } else if base is None && want.len() <= lo {
        Err(ErrorV::Empty("that would leave the branch with no commits at all"@))
    } else {
        Ok(ShapedV { recipe, base, tip: head, order: want.skip(lo) })
    }
}

/// A result by its contents.
pub open spec fn shaped_view(r: Result<Shaped, Error>) -> Result<ShapedV, ErrorV> {
    match r {
        Ok(s) => Ok(s@),
        Err(e) => Err(e@),
    }
}

fn same_list(a: &Vec<Oid>, b: &Vec<Oid>) -> (r: bool)
    ensures
        r == (a@ == b@),
{
    if a.len() != b.len() {
        return false;
    }
    let mut i: usize = 0;
    while i < a.len()
        invariant
            a@.len() == b@.len(),
            0 <= i <= a@.len(),
            forall|j: int| 0 <= j < i ==> a@[j] == b@[j],
        decreases a@.len() - i,
    {
        if a[i] != b[i] {
            return false;
        }
        i += 1;
    }
    assert(a@ =~= b@);
    true
}

/// Package `want` as a plan, trimming the untouched common prefix so a rewrite
/// only ever starts where the shape first differs. `edited` forces an earlier
/// start for a commit the recipe changes in place even though it sits inside that
/// prefix (squash's parent).
fn shaped(
    s: &Stack,
    head: Oid,
    want: Vec<Oid>,
    recipe: Recipe,
    edited: Option<usize>,
) -> (r: Result<Shaped, Error>)
    requires
        s@.rows.len() > 0 || want@.len() == 0,
    ensures
        shaped_view(r) == shaped_of(
            s@,
            head,
            want@,
            recipe@,
            match edited {
                Some(e) => Some(e as int),
                None => None,
            },
        ),
{
    let ids = s.ids();
    if same_list(&want, &ids) {
        return Err(Error::Empty("the stack already has that shape".to_owned()));
    }
    assert(ids@.len() > 0) by {
        if ids@.len() == 0 {
            assert(want@ =~= ids@);
        }
    }
    let mut diff: usize = 0;
    while diff < ids.len() && diff < want.len() && ids[diff] == want[diff]
        invariant
            0 <= diff <= ids@.len(),
            diff <= want@.len(),
            common(ids@, want@, diff as int) == common(ids@, want@, 0),
        decreases ids@.len() - diff,
    {
        diff += 1;
    }
    let mut lo: usize = diff;
    if let Some(e) = edited {
        if e < lo {
            lo = e;
        }
    }
    if lo > ids.len() - 1 {
        lo = ids.len() - 1;
    }
    assert(lo == starts_at(
        ids@,
        want@,
        match edited {
            Some(e) => Some(e as int),
            None => None,
        },
    ));
    assert(s@.rows[lo as int].1 == s.rows@[lo as int].1@);
    let base = parent_in_row(&s.rows[lo].1);
    if base.is_none() && want.len() <= lo {
        return Err(
            Error::Empty("that would leave the branch with no commits at all".to_owned()),
        );
    }
    let mut order: Vec<Oid> = Vec::new();
    let mut i: usize = lo;
    while i < want.len()
        invariant
            lo <= i,
            i <= want@.len() || want@.len() <= lo,
            order@ == if want@.len() <= lo {
                Seq::empty()
            } else {
                want@.subrange(lo as int, i as int)
            },
        decreases want@.len() - i,
    {
        order.push(want[i]);
        i += 1;
        assert(want@.subrange(lo as int, i as int) =~= want@.subrange(lo as int, i - 1).push(
            want@[i - 1],
        ));
    }
    assert(order@ =~= want@.skip(lo as int));
    Ok(Shaped { recipe, base, tip: head, order })
}

/// Replay the stack in `want` order (oldest first) — any permutation and/or subset
/// of it. Reorder and drop are both just this.
pub fn reshape(s: &Stack, head: Oid, want: Vec<Oid>) -> (r: Result<Shaped, Error>)
    requires
        s@.rows.len() > 0 || want@.len() == 0,
    ensures
        shaped_view(r) == shaped_of(s@, head, want@, RecipeV::empty(), None),
{
    shaped(s, head, want, Recipe::new(), None)
}

/// See [`drop_commit`].
pub open spec fn dropped_of(s: StackV, head: Oid, rev: Oid) -> Result<ShapedV, ErrorV> {
    if place(s.ids(), rev) is None {
        Err(ErrorV::TargetNotAncestor)
    } else {
        shaped_of(s, head, without(s.ids(), rev), RecipeV::empty(), None)
    }
}

/// Omit `rev`; everything after it replays as if it had never been committed.
pub fn drop_commit(s: &Stack, head: Oid, rev: Oid) -> (r: Result<Shaped, Error>)
    ensures
        shaped_view(r) == dropped_of(s@, head, rev),
{
    let ids = s.ids();
    match locate(&ids, rev) {
        Err(e) => Err(e),
        Ok(_) => shaped(s, head, leave_out(&ids, rev), Recipe::new(), None),
    }
}

/// `ids` with `rev` taken out and put immediately before or after `anchor`.
pub open spec fn reordered(ids: Seq<Oid>, rev: Oid, anchor: Oid, before: bool) -> Seq<Oid> {
    let rest = without(ids, rev);
    let j = place(rest, anchor)->0;
    rest.insert(
        if before {
            j
        } else {
            j + 1
        },
        rev,
    )
}

/// See [`reorder`].
pub open spec fn reordered_of(
    s: StackV,
    head: Oid,
    rev: Oid,
    anchor: Oid,
    before: bool,
) -> Result<ShapedV, ErrorV> {
    if rev == anchor {
        Err(ErrorV::Empty("a commit cannot be moved relative to itself"@))
    } else if place(s.ids(), rev) is None || place(s.ids(), anchor) is None {
        Err(ErrorV::TargetNotAncestor)
    } else {
        shaped_of(s, head, reordered(s.ids(), rev, anchor, before), RecipeV::empty(), None)
    }
}

proof fn lemma_without_keeps(ids: Seq<Oid>, rev: Oid, o: Oid)
    ensures
        without(ids, rev).contains(o) <==> ids.contains(o) && o != rev,
        without(ids, rev).len() <= ids.len(),
    decreases ids.len(),
{
    if ids.len() > 0 {
        lemma_without_keeps(ids.drop_last(), rev, o);
        assert(ids =~= ids.drop_last().push(ids.last()));
        lemma_push_contains(ids.drop_last(), ids.last(), o);
        if ids.last() != rev {
            lemma_push_contains(without(ids.drop_last(), rev), ids.last(), o);
        }
    } else {
        assert(!without(ids, rev).contains(o));
    }
}

proof fn lemma_push_contains(s: Seq<Oid>, x: Oid, o: Oid)
    ensures
        s.push(x).contains(o) <==> s.contains(o) || o == x,
{
    if s.contains(o) {
        let j = s.index_of(o);
        assert(s.push(x)[j] == o);
    }
    if o == x {
        assert(s.push(x)[s.len() as int] == o);
    }
    if s.push(x).contains(o) && o != x {
        let j = s.push(x).index_of(o);
        assert(s[j] == o);
    }
}

/// Move `rev` to sit immediately before (older side) or after `anchor`.
pub fn reorder(s: &Stack, head: Oid, rev: Oid, anchor: Oid, before: bool) -> (r: Result<
    Shaped,
    Error,
>)
    ensures
        shaped_view(r) == reordered_of(s@, head, rev, anchor, before),
{
    if rev == anchor {
        return Err(Error::Empty("a commit cannot be moved relative to itself".to_owned()));
    }
    let ids = s.ids();
    if let Err(e) = locate(&ids, rev) {
        return Err(e);
    }
    if let Err(e) = locate(&ids, anchor) {
        return Err(e);
    }
    let mut want = leave_out(&ids, rev);
    proof {
        lemma_place(ids@, anchor);
        lemma_without_keeps(ids@, rev, anchor);
        lemma_place(without(ids@, rev), anchor);
    }
    // The anchor's index once `rev` is out of the way.
    match locate(&want, anchor) {
        Err(e) => Err(e),
        Ok(j) => {
            let n: usize = want.len();
            assert(j < n);
            want.insert(
                if before {
                    j
                } else {
                    j + 1
                },
                rev,
            );
            shaped(s, head, want, Recipe::new(), None)
        },
    }
}

/// Both messages, the parent's first, with a blank line between them.
pub open spec fn both_messages(parent: Seq<char>, child: Seq<char>) -> Seq<char> {
    text::trimmed_end(parent) + "\n\n"@ + text::trimmed_end(child) + "\n"@
}

/// Squash's message policy: keep BOTH, parent first, blank line between — the same
/// choice `git rebase -i`'s `squash` makes. A commit message is something the user
/// typed; half of it is never discarded silently.
fn concat_messages(parent: &str, child: &str) -> (s: String)
    ensures
        s@ == both_messages(parent@, child@),
{
    text::trim_end(parent).concat("\n\n").concat(&text::trim_end(child)).concat("\n")
}

/// See [`squash`].
pub open spec fn squashed_of(s: StackV, head: Oid, rev: Oid, msg: Option<Seq<char>>) -> Result<
    ShapedV,
    ErrorV,
> {
    match place(s.ids(), rev) {
        None => Err(ErrorV::TargetNotAncestor),
        Some(i) => if i == 0 {
            Err(
                ErrorV::Empty(
                    rev.spec_short()
                        + " is the oldest commit in the stack — nothing to squash it into"@,
                ),
            )
        } else {
            let parent = s.ids()[i - 1];
            let message = match msg {
                Some(m) => m,
                None => both_messages(s.rows[i - 1].1.message, s.rows[i].1.message),
            };
            shaped_of(
                s,
                head,
                without(s.ids(), rev),
                RecipeV::empty().add(parent, EditV::ApplyChange(rev)).set_message(parent, message),
                Some(i - 1),
            )
        },
    }
}

/// Fold `rev` into its parent: drop it from the order and inject its change at the
/// parent, whose message absorbs `rev`'s (or becomes `msg`, if given).
pub fn squash(s: &Stack, head: Oid, rev: Oid, msg: Option<&str>) -> (r: Result<Shaped, Error>)
    ensures
        shaped_view(r) == squashed_of(
            s@,
            head,
            rev,
            match msg {
                Some(m) => Some(m@),
                None => None,
            },
        ),
{
    let ids = s.ids();
    let i: usize = match locate(&ids, rev) {
        Err(e) => {
            return Err(e);
        },
        Ok(i) => i,
    };
    if i == 0 {
        return Err(
            Error::Empty(
                rev.short().concat(
                    " is the oldest commit in the stack — nothing to squash it into",
                ),
            ),
        );
    }
    let parent = ids[i - 1];
    assert(s@.rows[i - 1].1 == s.rows@[i - 1].1@);
    assert(s@.rows[i as int].1 == s.rows@[i as int].1@);
    let message = match msg {
        Some(m) => m.to_owned(),
        None => concat_messages(&s.rows[i - 1].1.message, &s.rows[i].1.message),
    };
    let mut recipe = Recipe::new();
    recipe.add(parent, Edit::ApplyChange(rev));
    recipe.set_message(parent, message);
    shaped(s, head, leave_out(&ids, rev), recipe, Some(i - 1))
}

/// See [`split_at`].
pub open spec fn split_of(s: StackV, head: Oid, rev: Oid, first: Oid) -> Result<ShapedV, ErrorV> {
    match place(s.ids(), rev) {
        None => Err(ErrorV::TargetNotAncestor),
        Some(i) => shaped_of(s, head, s.ids().insert(i, first), RecipeV::empty(), None),
    }
}

/// Insert an already-built synthetic commit into the order immediately before
/// `rev` — the whole of split, once the split-off commit exists. `first` is
/// parented at `rev`'s parent; `rev` then replays onto a tree that already holds
/// those changes.
pub fn split_at(s: &Stack, head: Oid, rev: Oid, first: Oid) -> (r: Result<Shaped, Error>)
    ensures
        shaped_view(r) == split_of(s@, head, rev, first),
{
    let ids = s.ids();
    match locate(&ids, rev) {
        Err(e) => Err(e),
        Ok(i) => {
            let mut want = ids.clone();
            assert(want@ =~= ids@);
            want.insert(i, first);
            shaped(s, head, want, Recipe::new(), None)
        },
    }
}

// ── fix and reword ──────────────────────────────────────────────────────────

/// See [`fix`].
pub open spec fn fix_in(k: Known, target: Oid, head: Oid, staged: Oid) -> AskV<PlanV> {
    match store::reaches_in(k, target, head) {
        AskV::Need(q) => AskV::Need(q),
        AskV::Fail(e) => AskV::Fail(e),
        AskV::Have(false) => AskV::Fail(ErrorV::TargetNotAncestor),
        AskV::Have(true) => match store::object_in(
            k,
            QueryV::Create { tree: staged, parent: head, message: "fixup"@, like: None },
        ) {
            AskV::Need(q) => AskV::Need(q),
            AskV::Fail(e) => AskV::Fail(e),
            AskV::Have(synth) => match parent_in(k, target) {
                AskV::Need(q) => AskV::Need(q),
                AskV::Fail(e) => AskV::Fail(e),
                AskV::Have(base) => AskV::Have(
                    PlanV {
                        recipe: RecipeV::empty().add(target, EditV::ApplyChange(synth)),
                        base,
                        tip: head,
                    },
                ),
            },
        },
    }
}

/// Fold a staged change (captured as the tree `staged`) into `target`: a synthetic
/// commit carries the staged delta, and is applied there.
pub fn fix(seen: &Seen, target: Oid, head: Oid, staged: Oid) -> (r: Ask<Plan>)
    ensures
        r@ == fix_in(seen@, target, head, staged),
{
    match seen.is_ancestor(target, head) {
        Ask::Need(q) => return Ask::Need(q),
        Ask::Fail(e) => return Ask::Fail(e),
        Ask::Have(false) => return Ask::Fail(Error::TargetNotAncestor),
        Ask::Have(true) => {},
    }
    let q = Query::Create { tree: staged, parent: head, message: "fixup".to_owned(), like: None };
    let synth = match seen.object(q) {
        Ask::Need(q) => return Ask::Need(q),
        Ask::Fail(e) => return Ask::Fail(e),
        Ask::Have(o) => o,
    };
    let base = match parent_of(seen, target) {
        Ask::Need(q) => return Ask::Need(q),
        Ask::Fail(e) => return Ask::Fail(e),
        Ask::Have(p) => p,
    };
    let mut recipe = Recipe::new();
    recipe.add(target, Edit::ApplyChange(synth));
    Ask::Have(Plan { recipe, base, tip: head })
}

/// The message that a reword gives: what was typed, ended by one newline.
pub open spec fn reworded(msg: Seq<char>) -> Seq<char> {
    text::trimmed_end(msg) + "\n"@
}

/// See [`reword`].
pub open spec fn reword_in(k: Known, rev: Oid, head: Oid, msg: Seq<char>) -> AskV<PlanV> {
    match store::reaches_in(k, rev, head) {
        AskV::Need(q) => AskV::Need(q),
        AskV::Fail(e) => AskV::Fail(e),
        AskV::Have(false) => AskV::Fail(ErrorV::TargetNotAncestor),
        AskV::Have(true) => match parent_in(k, rev) {
            AskV::Need(q) => AskV::Need(q),
            AskV::Fail(e) => AskV::Fail(e),
            AskV::Have(base) => AskV::Have(
                PlanV {
                    recipe: RecipeV::empty().set_message(rev, reworded(msg)),
                    base,
                    tip: head,
                },
            ),
        },
    }
}

/// Replace the message of `rev`. No tree changes.
pub fn reword(seen: &Seen, rev: Oid, head: Oid, msg: &str) -> (r: Ask<Plan>)
    ensures
        r@ == reword_in(seen@, rev, head, msg@),
{
    match seen.is_ancestor(rev, head) {
        Ask::Need(q) => return Ask::Need(q),
        Ask::Fail(e) => return Ask::Fail(e),
        Ask::Have(false) => return Ask::Fail(Error::TargetNotAncestor),
        Ask::Have(true) => {},
    }
    let base = match parent_of(seen, rev) {
        Ask::Need(q) => return Ask::Need(q),
        Ask::Fail(e) => return Ask::Fail(e),
        Ask::Have(p) => p,
    };
    let mut recipe = Recipe::new();
    recipe.set_message(rev, text::trim_end(msg).concat("\n"));
    Ask::Have(Plan { recipe, base, tip: head })
}

// ── split by path ───────────────────────────────────────────────────────────

/// What a path is in `child`. A path absent there was deleted by the commit, which
/// splits off as a removal; a path absent in `parent` too is just a typo.
pub open spec fn wanted_in(k: Known, parent: Oid, child: Oid, path: Seq<char>) -> AskV<
    Option<(Oid, i32)>,
> {
    match store::entry_in(k, QueryV::Path { tree: child, path }) {
        AskV::Need(q) => AskV::Need(q),
        AskV::Fail(e) => AskV::Fail(e),
        AskV::Have(Some(e)) => AskV::Have(Some((e.id, e.mode))),
        AskV::Have(None) => match store::entry_in(k, QueryV::Path { tree: parent, path }) {
            AskV::Need(q) => AskV::Need(q),
            AskV::Fail(e) => AskV::Fail(e),
            AskV::Have(None) => AskV::Fail(ErrorV::PathNotFound { path }),
            AskV::Have(Some(_)) => AskV::Have(None),
        },
    }
}

/// `tree` with the paths `paths[i..]` as they are in `child`.
pub open spec fn taken_in(
    k: Known,
    parent: Oid,
    child: Oid,
    paths: Seq<Seq<char>>,
    i: int,
    tree: Oid,
) -> AskV<Oid>
    decreases paths.len() - i,
{
    if i < 0 || i >= paths.len() {
        AskV::Have(tree)
    } else {
        match wanted_in(k, parent, child, paths[i]) {
            AskV::Need(q) => AskV::Need(q),
            AskV::Fail(e) => AskV::Fail(e),
            AskV::Have(entry) => match engine::set_path_in(k, tree, paths[i], entry) {
                AskV::Need(q) => AskV::Need(q),
                AskV::Fail(e) => AskV::Fail(e),
                AskV::Have(t) => taken_in(k, parent, child, paths, i + 1, t),
            },
        }
    }
}

/// See [`taken_in`].
fn take_paths(seen: &Seen, parent: Oid, child: Oid, paths: &Vec<String>) -> (r: Ask<Oid>)
    ensures
        r@ == taken_in(seen@, parent, child, text::texts(paths@), 0, parent),
{
    let mut tree = parent;
    let mut i: usize = 0;
    while i < paths.len()
        invariant
            0 <= i <= paths@.len(),
            taken_in(seen@, parent, child, text::texts(paths@), i as int, tree) == taken_in(
                seen@,
                parent,
                child,
                text::texts(paths@),
                0,
                parent,
            ),
        decreases paths@.len() - i,
    {
        assert(text::texts(paths@)[i as int] == paths@[i as int]@);
        let there = match seen.entry(Query::Path { tree: child, path: paths[i].clone() }) {
            Ask::Need(q) => return Ask::Need(q),
            Ask::Fail(e) => return Ask::Fail(e),
            Ask::Have(e) => e,
        };
        let entry = match there {
            Some(e) => Some((e.id, e.mode)),
            None => {
                match seen.entry(Query::Path { tree: parent, path: paths[i].clone() }) {
                    Ask::Need(q) => return Ask::Need(q),
                    Ask::Fail(e) => return Ask::Fail(e),
                    Ask::Have(None) => return Ask::Fail(
                        Error::PathNotFound { path: paths[i].clone() },
                    ),
                    Ask::Have(Some(_)) => {},
                }
                None
            },
        };
        tree = match engine::set_path(seen, tree, &paths[i], entry) {
            Ask::Need(q) => return Ask::Need(q),
            Ask::Fail(e) => return Ask::Fail(e),
            Ask::Have(t) => t,
        };
        i += 1;
    }
    Ask::Have(tree)
}

/// The message of a split-off commit, unless another is given.
pub open spec fn part_one(summary: Option<Seq<char>>) -> Seq<char> {
    (match summary {
        Some(s) => s,
        None => "split"@,
    }) + " (part 1)"@
}

/// See [`split`].
pub open spec fn split_in(
    k: Known,
    s: StackV,
    head: Oid,
    rev: Oid,
    paths: Seq<Seq<char>>,
    msg: Option<Seq<char>>,
) -> AskV<ShapedV> {
    match place(s.ids(), rev) {
        None => AskV::Fail(ErrorV::TargetNotAncestor),
        Some(i) => {
            let c = s.rows[i].1;
            match first_parent(c.parents) {
                None => AskV::Fail(
                    ErrorV::Empty(rev.spec_short() + " is a root commit; nothing to split off"@),
                ),
                Some(parent) => match store::commit_in(k, parent) {
                    AskV::Need(q) => AskV::Need(q),
                    AskV::Fail(e) => AskV::Fail(e),
                    AskV::Have(p) => match taken_in(k, p.tree, c.tree, paths, 0, p.tree) {
                        AskV::Need(q) => AskV::Need(q),
                        AskV::Fail(e) => AskV::Fail(e),
                        AskV::Have(tree) => if tree == p.tree {
                            AskV::Fail(
                                ErrorV::Empty(
                                    "none of those paths change at "@ + rev.spec_short(),
                                ),
                            )
                        } else if tree == c.tree {
                            AskV::Fail(
                                ErrorV::Empty(
                                    "those paths are the WHOLE of "@ + rev.spec_short()
                                        + "; nothing would be left behind"@,
                                ),
                            )
                        } else {
                            let message = match msg {
                                Some(m) => m,
                                None => part_one(c.summary),
                            };
                            let q = QueryV::Create { tree, parent, message, like: Some(rev) };
                            match store::object_in(k, q) {
                                AskV::Need(q) => AskV::Need(q),
                                AskV::Fail(e) => AskV::Fail(e),
                                AskV::Have(first) => match split_of(s, head, rev, first) {
                                    Ok(p) => AskV::Have(p),
                                    Err(e) => AskV::Fail(e),
                                },
                            }
                        },
                    },
                },
            }
        },
    }
}

/// Split `rev` in two: a new commit carrying only `paths`' changes, then `rev`
/// itself with the remainder. The split-off commit simply takes a slot in the
/// replay order ahead of `rev`.
pub fn split(
    seen: &Seen,
    s: &Stack,
    head: Oid,
    rev: Oid,
    paths: &Vec<String>,
    msg: Option<&str>,
) -> (r: Ask<Shaped>)
    ensures
        r@ == split_in(
            seen@,
            s@,
            head,
            rev,
            text::texts(paths@),
            match msg {
                Some(m) => Some(m@),
                None => None,
            },
        ),
{
    let ids = s.ids();
    let i: usize = match locate(&ids, rev) {
        Err(e) => return Ask::Fail(e),
        Ok(i) => i,
    };
    assert(s@.rows[i as int].1 == s.rows@[i as int].1@);
    let c = &s.rows[i].1;
    let parent = match parent_in_row(c) {
        Some(p) => p,
        None => return Ask::Fail(
            Error::Empty(rev.short().concat(" is a root commit; nothing to split off")),
        ),
    };
    let ptree = match seen.commit(parent) {
        Ask::Need(q) => return Ask::Need(q),
        Ask::Fail(e) => return Ask::Fail(e),
        Ask::Have(p) => p.tree,
    };
    let tree = match take_paths(seen, ptree, c.tree, paths) {
        Ask::Need(q) => return Ask::Need(q),
        Ask::Fail(e) => return Ask::Fail(e),
        Ask::Have(t) => t,
    };
    if tree == ptree {
        return Ask::Fail(
            Error::Empty("none of those paths change at ".to_owned().concat(&rev.short())),
        );
    }
    if tree == c.tree {
        return Ask::Fail(
            Error::Empty(
                "those paths are the WHOLE of ".to_owned().concat(&rev.short()).concat(
                    "; nothing would be left behind",
                ),
            ),
        );
    }
    let message = match msg {
        Some(m) => m.to_owned(),
        None => match &c.summary {
            Some(t) => t.clone().concat(" (part 1)"),
            None => "split".to_owned().concat(" (part 1)"),
        },
    };
    match seen.object(Query::Create { tree, parent, message, like: Some(rev) }) {
        Ask::Need(q) => Ask::Need(q),
        Ask::Fail(e) => Ask::Fail(e),
        Ask::Have(first) => match split_at(s, head, rev, first) {
            Ok(p) => Ask::Have(p),
            Err(e) => Ask::Fail(e),
        },
    }
}

// ── move a whole file ───────────────────────────────────────────────────────

/// The file at `path` as the commit `c` has it, if it does, and the commit's first
/// parent.
pub open spec fn file_in(k: Known, path: Seq<char>, c: Oid) -> AskV<
    (Option<store::Entry>, Option<Oid>),
> {
    match store::commit_in(k, c) {
        AskV::Need(q) => AskV::Need(q),
        AskV::Fail(e) => AskV::Fail(e),
        AskV::Have(i) => match store::entry_in(k, QueryV::Path { tree: i.tree, path }) {
            AskV::Need(q) => AskV::Need(q),
            AskV::Fail(e) => AskV::Fail(e),
            AskV::Have(x) => AskV::Have((x, first_parent(i.parents))),
        },
    }
}

/// See [`file_in`].
fn file_at(seen: &Seen, path: &str, c: Oid) -> (r: Ask<(Option<store::Entry>, Option<Oid>)>)
    ensures
        match r {
            Ask::Need(q) => file_in(seen@, path@, c) == AskV::<
                (Option<store::Entry>, Option<Oid>),
            >::Need(q@),
            Ask::Fail(e) => file_in(seen@, path@, c) == AskV::<
                (Option<store::Entry>, Option<Oid>),
            >::Fail(e@),
            Ask::Have(v) => file_in(seen@, path@, c) == AskV::Have(v),
        },
{
    match seen.commit(c) {
        Ask::Need(q) => Ask::Need(q),
        Ask::Fail(e) => Ask::Fail(e),
        Ask::Have(i) => match seen.entry(Query::Path { tree: i.tree, path: path.to_owned() }) {
            Ask::Need(q) => Ask::Need(q),
            Ask::Fail(e) => Ask::Fail(e),
            Ask::Have(x) => Ask::Have((x, parent_in_row(i))),
        },
    }
}

/// What a move is about: the path, the commit it is to appear at first, the tip.
#[verifier::ext_equal]
pub struct MoveV {
    pub path: Seq<char>,
    pub target: Oid,
    pub head: Oid,
}

/// The file as the target has it, if it does, and the target's first parent. The
/// target must be in the tip's history.
pub open spec fn placed_in(k: Known, m: MoveV) -> AskV<(Option<store::Entry>, Option<Oid>)> {
    match store::reaches_in(k, m.target, m.head) {
        AskV::Need(q) => AskV::Need(q),
        AskV::Fail(e) => AskV::Fail(e),
        AskV::Have(false) => AskV::Fail(ErrorV::TargetNotAncestor),
        AskV::Have(true) => file_in(k, m.path, m.target),
    }
}

/// Following first parents from the target one passes the commits `line`, and
/// `below` comes next. Each of them below the target has the file as the blob
/// `with`; where that is none, none of them has it.
pub open spec fn descends(
    k: Known,
    m: MoveV,
    with: Option<Oid>,
    line: Seq<Oid>,
    below: Option<Oid>,
) -> bool {
    &&& line.len() > 0
    &&& line[0] == m.target
    &&& forall|i: int|
        0 <= i < line.len() ==> match file_in(k, m.path, #[trigger] line[i]) {
            AskV::Have((x, p)) => {
                &&& p == if i + 1 < line.len() {
                    Some(line[i + 1])
                } else {
                    below
                }
                &&& i > 0 ==> with == match x {
                    Some(e) => Some(e.id),
                    None => None,
                }
            },
            _ => false,
        }
}

/// The removal of the file from the first `n` commits of `line` but the target.
pub open spec fn removals(path: Seq<char>, line: Seq<Oid>, n: int) -> RecipeV
    decreases n,
{
    if n <= 1 {
        RecipeV::empty()
    } else {
        removals(path, line, n - 1).add(line[n - 1], EditV::RemoveFile { path })
    }
}

/// The target already has the file, as `e`: it is removed from the ancestors that
/// carry it, and set again at the target.
pub open spec fn stripped(m: MoveV, e: store::Entry, line: Seq<Oid>, below: Option<Oid>) -> AskV<
    PlanV,
> {
    if line.len() <= 1 {
        AskV::Fail(
            ErrorV::Empty(
                m.path + " is not present before "@ + m.target.spec_short()
                    + "; nothing to move"@,
            ),
        )
    } else {
        AskV::Have(
            PlanV {
                recipe: removals(m.path, line, line.len() as int).add(
                    m.target,
                    EditV::SetFile { path: m.path, blob: e.id, mode: e.mode },
                ),
                base: below,
                tip: m.head,
            },
        )
    }
}

/// The target does not have the file yet, and a commit after it introduces it as
/// `e`: it is planted at the target, unless the target's history had it and
/// `deleted` is where it went.
pub open spec fn planted(
    m: MoveV,
    e: store::Entry,
    base: Option<Oid>,
    deleted: Option<Oid>,
) -> AskV<PlanV> {
    match deleted {
        Some(d) => AskV::Fail(
            ErrorV::Empty(
                m.path + " was deleted at "@ + d.spec_short() + "; moving it to "@
                    + m.target.spec_short() + " would resurrect it"@,
            ),
        ),
        None => AskV::Have(
            PlanV {
                recipe: RecipeV::empty().add(
                    m.target,
                    EditV::SetFile { path: m.path, blob: e.id, mode: e.mode },
                ),
                base,
                tip: m.head,
            },
        ),
    }
}

/// The file as the first of `rows[i..]` that carries it has it. A commit whose tree
/// cannot be read is passed over.
pub open spec fn introduced_in(k: Known, path: Seq<char>, rows: Seq<(Oid, CommitV)>, i: int) -> AskV<
    Option<store::Entry>,
>
    decreases rows.len() - i,
{
    if i < 0 || i >= rows.len() {
        AskV::Have(None)
    } else {
        match store::entry_in(k, QueryV::Path { tree: rows[i].1.tree, path }) {
            AskV::Need(q) => AskV::Need(q),
            AskV::Have(Some(e)) => AskV::Have(Some(e)),
            _ => introduced_in(k, path, rows, i + 1),
        }
    }
}

/// `r` is how the planning of a move comes out where the target has the file as `e`.
/// Its history is read as far as the file is carried: down to the first commit that
/// does not have it, that has another content (the move is then refused), or that
/// has no parent.
pub open spec fn strips(k: Known, m: MoveV, e: store::Entry, r: AskV<PlanV>) -> bool {
    exists|line: Seq<Oid>, below: Option<Oid>| #[trigger]
        descends(k, m, Some(e.id), line, below) && match below {
            None => r == stripped(m, e, line, below),
            Some(o) => match file_in(k, m.path, o) {
                AskV::Need(_) => false,
                AskV::Fail(f) => r == AskV::<PlanV>::Fail(f),
                AskV::Have((None, _)) => r == stripped(m, e, line, below),
                AskV::Have((Some(x), _)) => x.id != e.id && r == AskV::<PlanV>::Fail(
                    ErrorV::FileModified { path: m.path, commit: o },
                ),
            },
        }
}

/// `r` is how the planning of a move comes out where the target does not have the
/// file and a commit after it introduces it as `e`. The target's history is read
/// down to the first commit that has the file, as far as it can be read.
pub open spec fn digs(k: Known, m: MoveV, base: Option<Oid>, e: store::Entry, r: AskV<PlanV>) -> bool {
    exists|line: Seq<Oid>, below: Option<Oid>| #[trigger]
        descends(k, m, None, line, below) && match below {
            None => r == planted(m, e, base, None),
            Some(o) => match file_in(k, m.path, o) {
                AskV::Need(_) => false,
                AskV::Fail(_) => r == planted(m, e, base, None),
                AskV::Have((None, _)) => false,
                AskV::Have((Some(_), _)) => r == planted(m, e, base, Some(line.last())),
            },
        }
}

/// `r` is how the planning of a move comes out where the target does not have the
/// file.
pub open spec fn plants(k: Known, m: MoveV, base: Option<Oid>, r: AskV<PlanV>) -> bool {
    ||| exists|after: StackV| #[trigger]
        git::is_linear(k, Some(m.target), m.head, after) && match introduced_in(
            k,
            m.path,
            after.rows,
            0,
        ) {
            AskV::Have(None) => r == AskV::<PlanV>::Fail(ErrorV::PathNotFound { path: m.path }),
            AskV::Have(Some(e)) => digs(k, m, base, e, r),
            _ => false,
        }
    ||| exists|f: ErrorV| #[trigger]
        git::not_linear(k, Some(m.target), Reach::Base, m.head, f) && r == AskV::<PlanV>::Fail(f)
}

/// `r` is how the planning of the move comes out.
pub open spec fn moves(k: Known, m: MoveV, r: AskV<PlanV>) -> bool {
    match placed_in(k, m) {
        AskV::Need(_) => false,
        AskV::Fail(f) => r == AskV::<PlanV>::Fail(f),
        AskV::Have((Some(e), _)) => strips(k, m, e, r),
        AskV::Have((None, base)) => plants(k, m, base, r),
    }
}

/// A commit after the target introduces the file as `e`.
pub open spec fn comes_later(k: Known, m: MoveV, e: store::Entry) -> bool {
    exists|after: StackV| #[trigger]
        git::is_linear(k, Some(m.target), m.head, after) && introduced_in(
            k,
            m.path,
            after.rows,
            0,
        ) == AskV::Have(Some(e))
}

proof fn lemma_digs(k: Known, m: MoveV, base: Option<Oid>, e: store::Entry, r: AskV<PlanV>)
    requires
        placed_in(k, m) == AskV::Have((None::<store::Entry>, base)),
        comes_later(k, m, e),
        digs(k, m, base, e, r),
    ensures
        moves(k, m, r),
{
    let after = choose|after: StackV| #[trigger]
        git::is_linear(k, Some(m.target), m.head, after) && introduced_in(
            k,
            m.path,
            after.rows,
            0,
        ) == AskV::Have(Some(e));
    assert(git::is_linear(k, Some(m.target), m.head, after));
}

/// One commit further down.
proof fn lemma_descends(
    k: Known,
    m: MoveV,
    with: Option<Oid>,
    line: Seq<Oid>,
    o: Oid,
    x: Option<store::Entry>,
    below: Option<Oid>,
)
    requires
        descends(k, m, with, line, Some(o)),
        file_in(k, m.path, o) == AskV::Have((x, below)),
        with == match x {
            Some(e) => Some(e.id),
            None => None,
        },
    ensures
        descends(k, m, with, line.push(o), below),
{
    let more = line.push(o);
    assert forall|i: int| 0 <= i < more.len() implies match file_in(k, m.path, #[trigger] more[i]) {
        AskV::Have((x, p)) => {
            &&& p == if i + 1 < more.len() {
                Some(more[i + 1])
            } else {
                below
            }
            &&& i > 0 ==> with == match x {
                Some(e) => Some(e.id),
                None => None,
            }
        },
        _ => false,
    } by {
        if i < line.len() {
            assert(more[i] == line[i]);
        }
    }
}

proof fn lemma_removals(path: Seq<char>, line: Seq<Oid>, o: Oid, n: int)
    requires
        n <= line.len(),
    ensures
        removals(path, line.push(o), n) == removals(path, line, n),
    decreases n,
{
    if n > 1 {
        lemma_removals(path, line, o, n - 1);
        assert(line.push(o)[n - 1] == line[n - 1]);
    }
}

/// How far the planning of a move has come.
#[derive(Debug)]
enum Stage {
    /// Is the file at the target?
    Look,
    /// It is, as this entry: strip it from the commits below. Those passed, the one
    /// that comes next, and the removals.
    Strip(store::Entry, Vec<Oid>, Option<Oid>, Recipe),
    /// It is not: read the commits after the target. Its first parent.
    After(Option<Oid>, Walk),
    /// Look for it from this row on.
    Find(Option<Oid>, Stack, usize),
    /// It is introduced as this entry: look for its deletion. Those passed, and the
    /// one that comes next.
    Dig(Option<Oid>, store::Entry, Vec<Oid>, Option<Oid>),
}

/// The planning of a move in progress.
#[derive(Debug)]
pub struct Moving {
    path: String,
    target: Oid,
    head: Oid,
    seen: Seen,
    stage: Stage,
}

impl Moving {
    pub closed spec fn what(&self) -> MoveV {
        MoveV { path: self.path@, target: self.target, head: self.head }
    }

    pub closed spec fn wf(&self) -> bool {
        match self.stage {
            Stage::Look => true,
            Stage::Strip(_, line, _, r) => line@.len() > 0 && r@ == removals(
                self.path@,
                line@,
                line@.len() as int,
            ),
            Stage::After(_, w) => w.wf() && w.reach() == Reach::Base && w.base() == Some(
                self.target,
            ) && w.tip() == self.head,
            Stage::Find(_, s, i) => 0 <= i <= s@.rows.len(),
            Stage::Dig(_, _, line, _) => line@.len() > 0,
        }
    }

    /// `k` answers as the planning was answered so far.
    pub closed spec fn agrees(&self, k: Known) -> bool {
        let m = self.what();
        let at = placed_in(k, m);
        &&& self.seen@.submap_of(k)
        &&& match self.stage {
            Stage::Look => true,
            Stage::Strip(e, line, below, _) => {
                &&& at matches AskV::Have((Some(x), _))
                &&& x == e
                &&& descends(k, m, Some(e.id), line@, below)
            },
            Stage::After(base, w) => at == AskV::Have((None::<store::Entry>, base)) && w.agrees(k),
            Stage::Find(base, s, i) => {
                &&& at == AskV::Have((None::<store::Entry>, base))
                &&& git::is_linear(k, Some(m.target), m.head, s@)
                &&& introduced_in(k, m.path, s@.rows, 0) == introduced_in(
                    k,
                    m.path,
                    s@.rows,
                    i as int,
                )
            },
            Stage::Dig(base, e, line, below) => {
                &&& at == AskV::Have((None::<store::Entry>, base))
                &&& comes_later(k, m, e)
                &&& descends(k, m, None, line@, below)
            },
        }
    }

    /// The answers of the object store that it still works from.
    pub closed spec fn heard(&self) -> Known {
        match self.stage {
            Stage::After(_, w) => w.heard(),
            _ => self.seen@,
        }
    }

    /// How far it has come: the stage, and the commits that it is through with there.
    pub closed spec fn came(&self) -> (nat, nat) {
        match self.stage {
            Stage::Look => (0, 0),
            Stage::After(_, w) => (1, w.depth()),
            Stage::Find(_, _, i) => (2, i as nat),
            Stage::Strip(_, line, _, _) => (3, line@.len()),
            Stage::Dig(_, _, line, _) => (3, line@.len()),
        }
    }

    /// The question it cannot go on without.
    pub closed spec fn wants(&self, q: QueryV) -> bool {
        let m = self.what();
        match self.stage {
            Stage::Look => placed_in(self.seen@, m) == AskV::<
                (Option<store::Entry>, Option<Oid>),
            >::Need(q),
            Stage::Strip(_, _, below, _) => below matches Some(o) && file_in(
                self.seen@,
                m.path,
                o,
            ) == AskV::<(Option<store::Entry>, Option<Oid>)>::Need(q),
            Stage::After(_, w) => w.wants(q),
            Stage::Find(_, s, i) => i < s@.rows.len() && q == (QueryV::Path {
                tree: s@.rows[i as int].1.tree,
                path: m.path,
            }) && !self.seen@.contains_key(q),
            Stage::Dig(_, _, _, below) => below matches Some(o) && file_in(
                self.seen@,
                m.path,
                o,
            ) == AskV::<(Option<store::Entry>, Option<Oid>)>::Need(q),
        }
    }

    /// Hear an answer.
    pub fn answer(&mut self, q: Query, a: Answer)
        requires
            old(self).wf(),
        ensures
            final(self).wf(),
            final(self).what() == old(self).what(),
            final(self).came() == old(self).came(),
            old(self).wants(q@) ==> final(self).heard() == old(self).heard().insert(q@, a@),
            forall|k: Known|
                (#[trigger] old(self).agrees(k) && k.contains_key(q@) && k[q@] == a@)
                    ==> final(self).agrees(k),
    {
        match &mut self.stage {
            Stage::After(_, w) => w.answer(q, a),
            _ => self.seen.learn(q, a),
        }
    }
}

/// What one step of planning must keep, and what it may say.
spec fn steps(old: Moving, new: Moving, r: Option<Ask<Plan>>) -> bool {
    &&& new.wf()
    &&& new.what() == old.what()
    &&& match r {
        None => store::further(old.came(), new.came()) && forall|k: Known| #[trigger]
            old.agrees(k) ==> new.agrees(k),
        Some(Ask::Need(q)) => {
            &&& new.wants(q@)
            &&& !new.heard().contains_key(q@)
            &&& store::further(old.came(), new.came()) || (new.came() == old.came()
                && new.heard() == old.heard())
            &&& forall|k: Known| #[trigger] old.agrees(k) ==> new.agrees(k)
        },
        Some(a) => forall|k: Known| #[trigger] old.agrees(k) ==> moves(k, old.what(), a@),
    }
}

impl Moving {
    /// The same planning at another stage.
    spec fn at(self, stage: Stage) -> Moving {
        Moving { stage, ..self }
    }

    /// How much can be done with what was heard: which stage, and how much in it.
    spec fn left(&self) -> (int, int) {
        match self.stage {
            Stage::Look => (4, 0),
            Stage::After(_, _) => (3, 0),
            Stage::Find(_, s, i) => (2, s@.rows.len() - i),
            _ => (
                1,
                if self.seen@ == Map::<QueryV, store::AnswerV>::empty() {
                    0
                } else {
                    1
                },
            ),
        }
    }

    fn look(&mut self) -> (r: Option<Ask<Plan>>)
        requires
            old(self).wf(),
            old(self).stage is Look,
        ensures
            steps(*old(self), *final(self), r),
            r is None ==> final(self).left().0 < old(self).left().0,
    {
        match self.seen.is_ancestor(self.target, self.head) {
            Ask::Need(q) => return Some(Ask::Need(q)),
            Ask::Fail(e) => return Some(Ask::Fail(e)),
            Ask::Have(false) => return Some(Ask::Fail(Error::TargetNotAncestor)),
            Ask::Have(true) => {},
        }
        let ghost m = self.what();
        let ghost seen = self.seen@;
        match file_at(&self.seen, &self.path, self.target) {
            Ask::Need(q) => Some(Ask::Need(q)),
            Ask::Fail(e) => Some(Ask::Fail(e)),
            Ask::Have((Some(e), below)) => {
                let line: Vec<Oid> = vec![self.target];
                proof {
                    assert forall|k: Known| seen.submap_of(k) implies #[trigger] descends(
                        k,
                        m,
                        Some(e.id),
                        line@,
                        below,
                    ) by {
                        assert(file_in(k, m.path, m.target) == file_in(seen, m.path, m.target));
                    }
                }
                self.stage = Stage::Strip(e, line, below, Recipe::new());
                self.seen = Seen::new();
                None
            },
            Ask::Have((None, base)) => {
                self.stage = Stage::After(base, git::linear_commits(Some(self.target), self.head));
                self.seen = Seen::new();
                None
            },
        }
    }

    /// Strip the file from the commit that comes next, if there is one that has it.
    fn strip_from_ancestors(
        &mut self,
        e: store::Entry,
        line: Vec<Oid>,
        below: Option<Oid>,
        recipe: Recipe,
    ) -> (r: Option<Ask<Plan>>)
        requires
            old(self).at(Stage::Strip(e, line, below, recipe)).wf(),
        ensures
            steps(old(self).at(Stage::Strip(e, line, below, recipe)), *final(self), r),
            r is None ==> final(self).left() == (1int, 0int) && old(self).at(
                Stage::Strip(e, line, below, recipe),
            ).left() == (1int, 1int),
    {
        let ghost m = self.what();
        let ghost seen = self.seen@;
        let ghost before = self.at(Stage::Strip(e, line, below, recipe));
        if let Some(o) = below {
            match file_at(&self.seen, &self.path, o) {
                Ask::Need(q) => {
                    self.stage = Stage::Strip(e, line, below, recipe);
                    return Some(Ask::Need(q));
                },
                Ask::Fail(f) => {
                    proof {
                        assert forall|k: Known| #[trigger] before.agrees(k) implies moves(
                            k,
                            m,
                            AskV::Fail(f@),
                        ) by {
                            assert(file_in(k, m.path, o) == file_in(seen, m.path, o));
                            assert(descends(k, m, Some(e.id), line@, below));
                        }
                    }
                    self.stage = Stage::Look;
                    return Some(Ask::Fail(f));
                },
                Ask::Have((Some(x), next)) => {
                    if x.id != e.id {
                        proof {
                            assert forall|k: Known| #[trigger] before.agrees(k) implies moves(
                                k,
                                m,
                                AskV::Fail(ErrorV::FileModified { path: m.path, commit: o }),
                            ) by {
                                assert(file_in(k, m.path, o) == file_in(seen, m.path, o));
                                assert(descends(k, m, Some(e.id), line@, below));
                            }
                        }
                        self.stage = Stage::Look;
                        return Some(
                            Ask::Fail(Error::FileModified { path: self.path.clone(), commit: o }),
                        );
                    }
                    let ghost passed = line@;
                    let mut recipe = recipe;
                    recipe.add(o, Edit::RemoveFile { path: self.path.clone() });
                    let mut line = line;
                    line.push(o);
                    proof {
                        lemma_removals(m.path, passed, o, passed.len() as int);
                        assert forall|k: Known| #[trigger] before.agrees(k) implies descends(
                            k,
                            m,
                            Some(e.id),
                            line@,
                            next,
                        ) by {
                            assert(file_in(k, m.path, o) == file_in(seen, m.path, o));
                            lemma_descends(k, m, Some(e.id), passed, o, Some(x), next);
                        }
                    }
                    self.stage = Stage::Strip(e, line, next, recipe);
                    self.seen = Seen::new();
                    return None;
                },
                Ask::Have((None, _)) => {},
            }
        }
        let ghost out = stripped(m, e, line@, below);
        proof {
            assert forall|k: Known| #[trigger] before.agrees(k) implies moves(k, m, out) by {
                if below is Some {
                    assert(file_in(k, m.path, below->0) == file_in(seen, m.path, below->0));
                }
                assert(descends(k, m, Some(e.id), line@, below));
            }
        }
        self.stage = Stage::Look;
        if line.len() <= 1 {
            return Some(
                Ask::Fail(
                    Error::Empty(
                        self.path.clone().concat(" is not present before ").concat(
                            &self.target.short(),
                        ).concat("; nothing to move"),
                    ),
                ),
            );
        }
        let mut recipe = recipe;
        // Set the target's copy (blob and mode) again after the merge strips it.
        recipe.add(
            self.target,
            Edit::SetFile { path: self.path.clone(), blob: e.id, mode: e.mode },
        );
        Some(Ask::Have(Plan { recipe, base: below, tip: self.head }))
    }
}

impl Moving {
    /// Is the file in the commit at `i` after the target?
    fn find(&mut self, base: Option<Oid>, s: Stack, i: usize) -> (r: Option<Ask<Plan>>)
        requires
            old(self).at(Stage::Find(base, s, i)).wf(),
        ensures
            steps(old(self).at(Stage::Find(base, s, i)), *final(self), r),
            r is None ==> {
                let was = old(self).at(Stage::Find(base, s, i)).left();
                let now = final(self).left();
                now.0 < was.0 || (now.0 == was.0 && 0 <= now.1 < was.1)
            },
    {
        let ghost m = self.what();
        let ghost seen = self.seen@;
        let ghost before = self.at(Stage::Find(base, s, i));
        if i >= s.rows.len() {
            self.stage = Stage::Find(base, s, i);
            return Some(Ask::Fail(Error::PathNotFound { path: self.path.clone() }));
        }
        assert(s@.rows[i as int].1 == s.rows@[i as int].1@);
        let q = Query::Path { tree: s.rows[i].1.tree, path: self.path.clone() };
        match self.seen.entry(q) {
            Ask::Need(q) => {
                self.stage = Stage::Find(base, s, i);
                Some(Ask::Need(q))
            },
            Ask::Have(Some(e)) => {
                let line: Vec<Oid> = vec![self.target];
                proof {
                    assert forall|k: Known| #[trigger] before.agrees(k) implies comes_later(
                        k,
                        m,
                        e,
                    ) && descends(k, m, None, line@, base) by {
                        assert(git::is_linear(k, Some(m.target), m.head, s@));
                        assert(introduced_in(k, m.path, s@.rows, 0) == AskV::Have(Some(e)));
                    }
                }
                self.stage = Stage::Dig(base, e, line, base);
                self.seen = Seen::new();
                None
            },
            _ => {
                self.stage = Stage::Find(base, s, i + 1);
                self.seen = Seen::new();
                None
            },
        }
    }

    /// The target doesn't have the file yet: plant it there, unless the commit that
    /// comes next in the target's history has it.
    fn plant_at_target(
        &mut self,
        base: Option<Oid>,
        e: store::Entry,
        line: Vec<Oid>,
        below: Option<Oid>,
    ) -> (r: Option<Ask<Plan>>)
        requires
            old(self).at(Stage::Dig(base, e, line, below)).wf(),
        ensures
            steps(old(self).at(Stage::Dig(base, e, line, below)), *final(self), r),
            r is None ==> final(self).left() == (1int, 0int) && old(self).at(
                Stage::Dig(base, e, line, below),
            ).left() == (1int, 1int),
    {
        let ghost m = self.what();
        let ghost seen = self.seen@;
        let ghost before = self.at(Stage::Dig(base, e, line, below));
        let mut deleted: Option<Oid> = None;
        if let Some(o) = below {
            match file_at(&self.seen, &self.path, o) {
                Ask::Need(q) => {
                    self.stage = Stage::Dig(base, e, line, below);
                    return Some(Ask::Need(q));
                },
                // The history goes no further.
                Ask::Fail(_) => {},
                Ask::Have((None, next)) => {
                    let ghost passed = line@;
                    let mut line = line;
                    line.push(o);
                    proof {
                        assert forall|k: Known| #[trigger] before.agrees(k) implies descends(
                            k,
                            m,
                            None,
                            line@,
                            next,
                        ) by {
                            assert(file_in(k, m.path, o) == file_in(seen, m.path, o));
                            lemma_descends(k, m, None, passed, o, None, next);
                        }
                    }
                    self.stage = Stage::Dig(base, e, line, next);
                    self.seen = Seen::new();
                    return None;
                },
                Ask::Have((Some(_), _)) => {
                    deleted = Some(line[line.len() - 1]);
                },
            }
        }
        let ghost out = planted(m, e, base, deleted);
        proof {
            assert forall|k: Known| #[trigger] before.agrees(k) implies moves(k, m, out) by {
                if below is Some {
                    assert(file_in(k, m.path, below->0) == file_in(seen, m.path, below->0));
                }
                assert(descends(k, m, None, line@, below));
                lemma_digs(k, m, base, e, out);
            }
        }
        self.stage = Stage::Look;
        if let Some(d) = deleted {
            return Some(
                Ask::Fail(
                    Error::Empty(
                        self.path.clone().concat(" was deleted at ").concat(&d.short()).concat(
                            "; moving it to ",
                        ).concat(&self.target.short()).concat(" would resurrect it"),
                    ),
                ),
            );
        }
        let mut recipe = Recipe::new();
        recipe.add(
            self.target,
            Edit::SetFile { path: self.path.clone(), blob: e.id, mode: e.mode },
        );
        Some(Ask::Have(Plan { recipe, base, tip: self.head }))
    }

    /// Read on in the commits after the target.
    fn walk(&mut self, base: Option<Oid>, w: Walk) -> (r: Option<Ask<Plan>>)
        requires
            old(self).at(Stage::After(base, w)).wf(),
        ensures
            steps(old(self).at(Stage::After(base, w)), *final(self), r),
            r is None ==> final(self).left().0 < 3,
    {
        let mut w = w;
        match w.next() {
            Ask::Need(q) => {
                self.stage = Stage::After(base, w);
                Some(Ask::Need(q))
            },
            Ask::Fail(f) => {
                self.stage = Stage::Look;
                Some(Ask::Fail(f))
            },
            Ask::Have(s) => {
                self.stage = Stage::Find(base, s, 0);
                None
            },
        }
    }

    /// Work on as far as the answers go, and say how it stands: the next thing to be
    /// told, why the move cannot be made, or the plan. It asks for nothing that it
    /// was told, and forgets an answer only once it has come further by it.
    pub fn next(&mut self) -> (r: Ask<Plan>)
        requires
            old(self).wf(),
        ensures
            final(self).wf(),
            final(self).what() == old(self).what(),
            r matches Ask::Need(q) ==> {
                &&& final(self).wants(q@)
                &&& !final(self).heard().contains_key(q@)
                &&& store::further(old(self).came(), final(self).came()) || (final(self).came()
                    == old(self).came() && final(self).heard() == old(self).heard())
                &&& forall|k: Known| #[trigger] old(self).agrees(k) ==> final(self).agrees(k)
            },
            !(r is Need) ==> forall|k: Known| #[trigger]
                old(self).agrees(k) ==> moves(k, old(self).what(), r@),
    {
        loop
            invariant
                self.wf(),
                self.what() == old(self).what(),
                store::further(old(self).came(), self.came()) || *self == *old(self),
                forall|k: Known| #[trigger] old(self).agrees(k) ==> self.agrees(k),
            decreases self.left().0, self.left().1,
        {
            let ghost before = *self;
            let mut stage = Stage::Look;
            std::mem::swap(&mut stage, &mut self.stage);
            assert(self.at(stage) == before);
            let r = match stage {
                Stage::Look => self.look(),
                Stage::Strip(e, line, below, recipe) => self.strip_from_ancestors(
                    e,
                    line,
                    below,
                    recipe,
                ),
                Stage::After(base, w) => self.walk(base, w),
                Stage::Find(base, s, i) => self.find(base, s, i),
                Stage::Dig(base, e, line, below) => self.plant_at_target(base, e, line, below),
            };
            if let Some(a) = r {
                return a;
            }
        }
    }
}

/// Re-anchor `path` so it first appears at `target`, in either direction:
///
/// * `target` already carries the file (it was introduced *earlier*): strip it
///   from every ancestor of `target` that carries it, keeping `target`'s copy.
/// * `target` doesn't carry it yet (it's introduced *later*): plant it at `target`
///   and let the replay carry it forward.
pub fn mv(path: &str, target: Oid, head: Oid) -> (r: Moving)
    ensures
        r.wf(),
        r.what() == (MoveV { path: path@, target, head }),
        r.heard() == Map::<QueryV, store::AnswerV>::empty(),
        forall|k: Known| #[trigger] r.agrees(k),
{
    Moving { path: path.to_owned(), target, head, seen: Seen::new(), stage: Stage::Look }
}

} // verus!
