//! How merges are done, and the linear runs of history that can be rewritten.

use crate::oid::Oid;
use crate::store;
use crate::store::{Answer, Ask, AskV, CommitInfo, CommitV, Known, Query};
use crate::{Error, ErrorV};
use vstd::prelude::*;

verus! {

/// Which side a conflicting region is resolved to, instead of aborting.
#[derive(Clone, Copy, PartialEq, Eq, Structural, Debug)]
pub enum FileFavor {
    Ours,
    Theirs,
    Union,
}

/// How the engine merges: whitespace sensitivity, plus an optional fixed rule
/// for resolving conflicting regions instead of aborting.
///
/// In every merge the engine does, **ours** is the stack being replayed onto
/// (the rewritten tree so far) and **theirs** is the change being applied (the
/// commit being replayed, or the staged hunk being injected) — `git rebase`'s
/// sense of the words, not `git merge`'s. Ours is never your working copy.
#[derive(Clone, Copy, PartialEq, Eq, Structural, Debug)]
pub struct Merge {
    pub ignore_ws: bool,
    pub favor: Option<FileFavor>,
}


/// What a 3-way merge is told to do.
#[derive(Clone, Copy, PartialEq, Eq, Structural, Debug)]
pub struct MergeOptions {
    pub patience: bool,
    pub ignore_whitespace: bool,
    pub file_favor: Option<FileFavor>,
}

impl Merge {
    /// Whitespace significant or not, and conflicts abort.
    pub fn from(ignore_ws: bool) -> (m: Merge)
        ensures
            m == (Merge { ignore_ws, favor: None }),
    {
        Merge { ignore_ws, favor: None }
    }

    /// The options for one 3-way merge. The patience diff gives fewer spurious
    /// conflicts than the default one.
    pub fn opts(&self) -> (o: MergeOptions)
        ensures
            o == (MergeOptions {
                patience: true,
                ignore_whitespace: self.ignore_ws,
                file_favor: self.favor,
            }),
    {
        MergeOptions {
            patience: true,
            ignore_whitespace: self.ignore_ws,
            file_favor: self.favor,
        }
    }
}

// ── linear runs ─────────────────────────────────────────────────────────────

/// A linear run of commits.
#[derive(Debug)]
pub struct Stack {
    /// The commits with what is known of them, oldest first.
    pub rows: Vec<(Oid, CommitInfo)>,
    /// The commit below the oldest one, where there is one.
    pub below: Option<Oid>,
}

/// A [`Stack`] by its contents.
#[verifier::ext_equal]
pub struct StackV {
    pub rows: Seq<(Oid, CommitV)>,
    pub below: Option<Oid>,
}

/// Commits with what is known of them.
pub open spec fn rows_of(v: Seq<(Oid, CommitInfo)>) -> Seq<(Oid, CommitV)> {
    v.map_values(|r: (Oid, CommitInfo)| (r.0, r.1@))
}

impl View for Stack {
    type V = StackV;

    open spec fn view(&self) -> StackV {
        StackV { rows: rows_of(self.rows@), below: self.below }
    }
}

impl StackV {
    /// The commits' ids, oldest first.
    pub open spec fn ids(self) -> Seq<Oid> {
        self.rows.map_values(|r: (Oid, CommitV)| r.0)
    }
}

impl Stack {
    /// The commits' ids, oldest first.
    pub fn ids(&self) -> (v: Vec<Oid>)
        ensures
            v@ == self@.ids(),
    {
        let mut v: Vec<Oid> = Vec::new();
        let mut i: usize = 0;
        while i < self.rows.len()
            invariant
                0 <= i <= self.rows@.len(),
                v@ == self@.ids().take(i as int),
            decreases self.rows@.len() - i,
        {
            v.push(self.rows[i].0);
            i += 1;
            assert(self@.ids().take(i as int) =~= self@.ids().take(i - 1).push(
                self@.ids()[i - 1],
            ));
        }
        assert(self@.ids().take(i as int) =~= self@.ids());
        v
    }
}

/// Following first parents from `tip`, one passes `rows` (newest first), none of
/// which has a second parent, and stands at `cur`.
pub open spec fn runs_down(
    k: Known,
    tip: Oid,
    rows: Seq<(Oid, CommitV)>,
    cur: Oid,
) -> bool {
    &&& rows.len() == 0 ==> cur == tip
    &&& rows.len() > 0 ==> rows[0].0 == tip
    &&& forall|i: int|
        0 <= i < rows.len() ==> {
            &&& store::commit_in(k, (#[trigger] rows[i]).0) == AskV::Have(rows[i].1)
            &&& rows[i].1.parents.len() == 1
            &&& rows[i].1.parents[0] == if i + 1 < rows.len() {
                rows[i + 1].0
            } else {
                cur
            }
        }
}

/// None of the rows is the base.
pub open spec fn clear_of(rows: Seq<(Oid, CommitV)>, base: Option<Oid>) -> bool {
    forall|i: int| 0 <= i < rows.len() ==> Some((#[trigger] rows[i]).0) != base
}

/// The run from `tip` down to a commit without parents, newest first.
pub open spec fn runs_to_root(
    k: Known,
    tip: Oid,
    rows: Seq<(Oid, CommitV)>,
) -> bool {
    &&& rows.len() > 0
    &&& runs_down(k, tip, rows.drop_last(), rows.last().0)
    &&& store::commit_in(k, rows.last().0) == AskV::Have(rows.last().1)
    &&& rows.last().1.parents.len() == 0
}

/// `s` is the run from `tip` down to `base` (left out); without a base, down to
/// the root.
pub open spec fn is_linear(k: Known, base: Option<Oid>, tip: Oid, s: StackV) -> bool {
    let rows = s.rows.reverse();
    &&& clear_of(rows, base)
    &&& s.below == base
    &&& match base {
        Some(b) => runs_down(k, tip, rows, b),
        None => runs_to_root(k, tip, rows),
    }
}

/// `s` is the run from `tip` down to the first merge commit (left out), or to the
/// root.
pub open spec fn is_window(k: Known, tip: Oid, s: StackV) -> bool {
    let rows = s.rows.reverse();
    match s.below {
        Some(m) => {
            &&& runs_down(k, tip, rows, m)
            &&& store::commit_in(k, m) matches AskV::Have(c)
            &&& c.parents.len() > 1
        },
        None => runs_to_root(k, tip, rows),
    }
}

/// Each of the rows is known, and the first parent of the one before it; the first is
/// `tip`.
spec fn chained(k: Known, tip: Oid, rows: Seq<(Oid, CommitV)>) -> bool {
    &&& rows.len() > 0 ==> rows[0].0 == tip
    &&& forall|i: int|
        0 <= i < rows.len() ==> {
            &&& store::commit_in(k, (#[trigger] rows[i]).0) == AskV::Have(rows[i].1)
            &&& i + 1 < rows.len() ==> rows[i].1.parents.len() == 1 && rows[i].1.parents[0]
                == rows[i + 1].0
        }
}

proof fn lemma_chained(k: Known, tip: Oid, rows: Seq<(Oid, CommitV)>)
    requires
        runs_to_root(k, tip, rows),
    ensures
        chained(k, tip, rows),
{
    let front = rows.drop_last();
    assert forall|i: int| 0 <= i < rows.len() implies {
        &&& store::commit_in(k, (#[trigger] rows[i]).0) == AskV::Have(rows[i].1)
        &&& i + 1 < rows.len() ==> rows[i].1.parents.len() == 1 && rows[i].1.parents[0] == rows[i
            + 1].0
    } by {
        if i < front.len() {
            assert(front[i] == rows[i]);
            if i + 1 < front.len() {
                assert(front[i + 1] == rows[i + 1]);
            }
        }
    }
    if front.len() > 0 {
        assert(front[0] == rows[0]);
    }
}

/// Two runs from the same commit agree as far as both go.
proof fn lemma_same_rows(
    k: Known,
    tip: Oid,
    a: Seq<(Oid, CommitV)>,
    b: Seq<(Oid, CommitV)>,
    i: int,
)
    requires
        chained(k, tip, a),
        chained(k, tip, b),
        0 <= i < a.len(),
        i < b.len(),
    ensures
        a[i] == b[i],
    decreases i,
{
    assert(store::commit_in(k, a[i].0) == AskV::Have(a[i].1));
    assert(store::commit_in(k, b[i].0) == AskV::Have(b[i].1));
    if i > 0 {
        lemma_same_rows(k, tip, a, b, i - 1);
        assert(a[i - 1].1.parents[0] == a[i].0);
        assert(b[i - 1].1.parents[0] == b[i].0);
    }
}

/// The run `a` is not a proper part of the run `b`.
proof fn lemma_not_shorter(
    k: Known,
    base: Option<Oid>,
    tip: Oid,
    a: Seq<(Oid, CommitV)>,
    b: Seq<(Oid, CommitV)>,
)
    requires
        clear_of(b, base),
        chained(k, tip, a),
        chained(k, tip, b),
        match base {
            Some(o) => runs_down(k, tip, a, o),
            None => runs_to_root(k, tip, a),
        },
    ensures
        a.len() >= b.len(),
{
    if a.len() < b.len() {
        let n = a.len() as int;
        if n > 0 {
            lemma_same_rows(k, tip, a, b, n - 1);
            assert(a[n - 1] == a.last());
            assert(b[n - 1].1.parents[0] == b[n].0);
        }
        assert(Some(b[n].0) != base);
    }
}

/// There is one linear run down to a base, or to the root: two are the same.
pub proof fn a_linear_run_is_unique(k: Known, base: Option<Oid>, tip: Oid, a: StackV, b: StackV)
    requires
        is_linear(k, base, tip, a),
        is_linear(k, base, tip, b),
    ensures
        a == b,
{
    let (x, y) = (a.rows.reverse(), b.rows.reverse());
    if base is None {
        lemma_chained(k, tip, x);
        lemma_chained(k, tip, y);
    }
    lemma_not_shorter(k, base, tip, x, y);
    lemma_not_shorter(k, base, tip, y, x);
    assert forall|i: int| 0 <= i < x.len() implies x[i] == y[i] by {
        lemma_same_rows(k, tip, x, y, i);
    }
    assert(x =~= y);
    assert(a.rows =~= x.reverse());
    assert(b.rows =~= y.reverse());
}

/// How far down a walk goes.
#[derive(Clone, Copy, PartialEq, Eq, Structural, Debug)]
pub enum Reach {
    /// To the base, or to the root; a merge commit on the way is an error.
    Base,
    /// To the first merge commit, or to the root.
    Window,
}

/// Why the walk from `tip` cannot be done.
pub open spec fn not_linear(k: Known, base: Option<Oid>, reach: Reach, tip: Oid, e: ErrorV) -> bool {
    let strict = reach == Reach::Base;
    exists|rows: Seq<(Oid, CommitV)>, cur: Oid| #[trigger]
        runs_down(k, tip, rows, cur) && (strict ==> clear_of(rows, base) && base != Some(cur)) && (
        match store::commit_in(k, cur) {
            AskV::Fail(f) => e == f,
            AskV::Have(c) => {
                ||| strict && c.parents.len() > 1 && e == (ErrorV::MergeInRange { commit: cur })
                ||| strict && c.parents.len() == 0 && base is Some && e == ErrorV::BaseNotAncestor
            },
            AskV::Need(_) => false,
        })
}

/// A walk down first parents in progress.
#[derive(Debug)]
pub struct Walk {
    base: Option<Oid>,
    reach: Reach,
    tip: Oid,
    /// The commits passed, newest first.
    passed: Vec<(Oid, CommitInfo)>,
    cur: Oid,
    heard: Option<Answer>,
}

impl Walk {
    pub closed spec fn base(&self) -> Option<Oid> {
        self.base
    }

    pub closed spec fn reach(&self) -> Reach {
        self.reach
    }

    pub closed spec fn tip(&self) -> Oid {
        self.tip
    }

    /// The commit it stands at.
    pub closed spec fn cur(&self) -> Oid {
        self.cur
    }

    /// `k` answers as the walk was answered.
    pub closed spec fn agrees(&self, k: Known) -> bool {
        &&& runs_down(k, self.tip, rows_of(self.passed@), self.cur)
        &&& self.heard matches Some(a) ==> k.contains_key(store::QueryV::Commit(self.cur))
            && k[store::QueryV::Commit(self.cur)] == a@
    }

    /// How many commits it has passed.
    pub closed spec fn depth(&self) -> nat {
        self.passed@.len()
    }

    /// What it was told of the commit it stands at, by the question.
    pub closed spec fn heard(&self) -> Known {
        match self.heard {
            Some(a) => Map::empty().insert(store::QueryV::Commit(self.cur), a@),
            None => Map::empty(),
        }
    }

    /// Is it waiting for no answer, one having come?
    pub open spec fn answered(&self) -> bool {
        self.heard().contains_key(store::QueryV::Commit(self.cur()))
    }

    pub closed spec fn wf(&self) -> bool {
        &&& clear_of(rows_of(self.passed@), self.base)
        &&& self.reach != Reach::Base ==> self.base is None
        &&& self.heard is Some ==> self.base != Some(self.cur)
    }

    /// Does it wait to be told of the commit it stands at?
    pub open spec fn wants(&self, q: store::QueryV) -> bool {
        q == store::QueryV::Commit(self.cur()) && !self.answered() && self.base() != Some(
            self.cur(),
        )
    }

    /// Hear an answer. One to a question that it did not ask is ignored.
    pub fn answer(&mut self, q: Query, a: Answer)
        requires
            old(self).wf(),
        ensures
            final(self).wf(),
            final(self).base() == old(self).base(),
            final(self).reach() == old(self).reach(),
            final(self).tip() == old(self).tip(),
            final(self).cur() == old(self).cur(),
            final(self).depth() == old(self).depth(),
            final(self).heard() == if old(self).wants(q@) {
                old(self).heard().insert(q@, a@)
            } else {
                old(self).heard()
            },
            forall|k: Known|
                (#[trigger] old(self).agrees(k) && k.contains_key(q@) && k[q@] == a@)
                    ==> final(self).agrees(k),
    {
        let asked = Query::Commit(self.cur);
        if self.heard.is_none() && !store::same_oid(Some(self.cur), self.base) && q.same(&asked) {
            self.heard = Some(a);
        }
    }

    /// Take in the answer, and say how it stands: the next commit to be told of,
    /// why the history is not linear, or the run.
    pub fn next(&mut self) -> (r: Ask<Stack>)
        requires
            old(self).wf(),
        ensures
            final(self).wf(),
            final(self).base() == old(self).base(),
            final(self).reach() == old(self).reach(),
            final(self).tip() == old(self).tip(),
            match r {
                Ask::Need(q) => {
                    &&& final(self).wants(q@)
                    &&& !old(self).answered() ==> final(self).heard() == old(self).heard()
                    &&& final(self).depth() == old(self).depth() + if old(self).answered() {
                        1nat
                    } else {
                        0nat
                    }
                    &&& forall|k: Known| #[trigger]
                        old(self).agrees(k) ==> final(self).agrees(k)
                },
                Ask::Fail(e) => forall|k: Known| #[trigger]
                    old(self).agrees(k) ==> not_linear(
                        k,
                        old(self).base(),
                        old(self).reach(),
                        old(self).tip(),
                        e@,
                    ),
                Ask::Have(s) => {
                    forall|k: Known| #[trigger]
                        old(self).agrees(k) ==> match old(self).reach() {
                            Reach::Base => is_linear(k, old(self).base(), old(self).tip(), s@),
                            Reach::Window => is_window(k, old(self).tip(), s@),
                        }
                },
            },
    {
        let cur = self.cur;
        if store::same_oid(Some(cur), self.base) {
            return Ask::Have(self.finish(Some(cur)));
        }
        let ghost passed = rows_of(self.passed@);
        match self.heard.take() {
            None => Ask::Need(Query::Commit(cur)),
            Some(Answer::Commit(c)) => {
                if c.parents.len() > 1 {
                    if self.reach == Reach::Base {
                        proof {
                            assert forall|k: Known| #[trigger] old(self).agrees(k) implies not_linear(
                                k,
                                self.base,
                                self.reach,
                                self.tip,
                                ErrorV::MergeInRange { commit: cur },
                            ) by {
                                assert(runs_down(k, self.tip, passed, cur));
                            }
                        }
                        return Ask::Fail(Error::MergeInRange { commit: cur });
                    }
                    // A merge bounds the rewritable stack.
                    return Ask::Have(self.finish(Some(cur)));
                }
                if c.parents.len() == 0 {
                    if self.base.is_some() {
                        proof {
                            assert forall|k: Known| #[trigger] old(self).agrees(k) implies not_linear(
                                k,
                                self.base,
                                self.reach,
                                self.tip,
                                ErrorV::BaseNotAncestor,
                            ) by {
                                assert(runs_down(k, self.tip, passed, cur));
                            }
                        }
                        return Ask::Fail(Error::BaseNotAncestor);
                    }
                    self.passed.push((cur, c));
                    assert(rows_of(self.passed@).drop_last() =~= passed);
                    return Ask::Have(self.finish(None));
                }
                let next = c.parents[0];
                self.passed.push((cur, c));
                self.cur = next;
                assert(rows_of(self.passed@) =~= passed.push((cur, c@)));
                if store::same_oid(Some(next), self.base) {
                    return Ask::Have(self.finish(Some(next)));
                }
                Ask::Need(Query::Commit(next))
            },
            Some(a) => {
                let e = store::troubled(&a);
                proof {
                    assert forall|k: Known| #[trigger] old(self).agrees(k) implies not_linear(
                        k,
                        self.base,
                        self.reach,
                        self.tip,
                        e@,
                    ) by {
                        assert(runs_down(k, self.tip, passed, cur));
                    }
                }
                Ask::Fail(e)
            },
        }
    }

    /// The commits passed, oldest first.
    fn finish(&mut self, below: Option<Oid>) -> (s: Stack)
        ensures
            s@.rows.len() == old(self).passed@.len(),
            s@.rows.reverse() == rows_of(old(self).passed@),
            s@.below == below,
            final(self).base == old(self).base,
            final(self).reach == old(self).reach,
            final(self).tip == old(self).tip,
            final(self).heard == old(self).heard,
            final(self).cur == old(self).cur,
            final(self).passed@.len() == 0,
    {
        let mut rows: Vec<(Oid, CommitInfo)> = Vec::new();
        let ghost all = self.passed@;
        while self.passed.len() > 0
            invariant
                all.len() == rows@.len() + self.passed@.len(),
                self.passed@ == all.take(self.passed@.len() as int),
                forall|i: int| 0 <= i < rows@.len() ==> rows@[i] == all[all.len() - 1 - i],
                self.base == old(self).base,
                self.reach == old(self).reach,
                self.tip == old(self).tip,
                self.heard == old(self).heard,
                self.cur == old(self).cur,
            decreases self.passed@.len(),
        {
            let ghost n = self.passed@.len();
            if let Some(r) = self.passed.pop() {
                rows.push(r);
            }
            assert(self.passed@ =~= all.take(n - 1));
        }
        let s = Stack { rows, below };
        assert(s@.rows.reverse() =~= rows_of(all));
        s
    }
}

/// Commits from `base` (left out) up to `tip`, following first parents; without a
/// base, from the root. Rejects merge commits and a base that isn't reached.
pub fn linear_commits(base: Option<Oid>, tip: Oid) -> (w: Walk)
    ensures
        w.wf(),
        w.base() == base,
        w.reach() == Reach::Base,
        w.tip() == tip,
        w.cur() == tip,
        w.heard() == Map::<store::QueryV, store::AnswerV>::empty(),
        w.depth() == 0,
        forall|k: Known| #[trigger] w.agrees(k),
{
    Walk { base, reach: Reach::Base, tip, passed: Vec::new(), cur: tip, heard: None }
}

/// The linear run of commits from `tip` back to (but leaving out) the first merge
/// commit, or to the root. It sizes the window that is offered for rewriting: a
/// merge somewhere below must not stop anyone from rewriting the linear stack on
/// top of it.
pub fn linear_window(tip: Oid) -> (w: Walk)
    ensures
        w.wf(),
        w.base() is None,
        w.reach() == Reach::Window,
        w.tip() == tip,
        w.cur() == tip,
        w.heard() == Map::<store::QueryV, store::AnswerV>::empty(),
        w.depth() == 0,
        forall|k: Known| #[trigger] w.agrees(k),
{
    Walk { base: None, reach: Reach::Window, tip, passed: Vec::new(), cur: tip, heard: None }
}

/// The commits that may be rewritten: those above `base`, or without one the linear
/// run below `tip`.
pub fn window(base: Option<Oid>, tip: Oid) -> (w: Walk)
    ensures
        w.wf(),
        w.base() == base,
        w.reach() == if base is Some {
            Reach::Base
        } else {
            Reach::Window
        },
        w.tip() == tip,
        w.cur() == tip,
        w.heard() == Map::<store::QueryV, store::AnswerV>::empty(),
        w.depth() == 0,
        forall|k: Known| #[trigger] w.agrees(k),
{
    match base {
        Some(_) => linear_commits(base, tip),
        None => linear_window(tip),
    }
}

// ── what holds of every walk ────────────────────────────────────────────────

/// The rows are known to the object store as they stand, oldest first, and each but the
/// first has the one before it for its only parent.
pub open spec fn follow_each_other(k: Known, rows: Seq<(Oid, CommitV)>) -> bool {
    &&& forall|i: int|
        0 <= i < rows.len() ==> k.contains_key(store::QueryV::Commit((#[trigger] rows[i]).0))
            && k[store::QueryV::Commit(rows[i].0)] == store::AnswerV::Commit(rows[i].1)
    &&& forall|i: int, j: int|
        0 <= i && j == i + 1 && j < rows.len() ==> (#[trigger] rows[j]).1.parents == seq![
            (#[trigger] rows[i]).0,
        ]
}

proof fn lemma_upwards(k: Known, tip: Oid, down: Seq<(Oid, CommitV)>, rows: Seq<(Oid, CommitV)>)
    requires
        chained(k, tip, down),
        down == rows.reverse(),
    ensures
        follow_each_other(k, rows),
{
    let n = rows.len();
    assert forall|i: int| 0 <= i < n implies k.contains_key(
        store::QueryV::Commit((#[trigger] rows[i]).0),
    ) && k[store::QueryV::Commit(rows[i].0)] == store::AnswerV::Commit(rows[i].1) by {
        assert(down[n - 1 - i] == rows[i]);
        assert(store::commit_in(k, down[n - 1 - i].0) == AskV::Have(down[n - 1 - i].1));
    }
    assert forall|i: int, j: int| 0 <= i && j == i + 1 && j < n implies (
    #[trigger] rows[j]).1.parents == seq![(#[trigger] rows[i]).0] by {
        assert(down[n - 1 - j] == rows[j]);
        assert(down[n - 1 - i] == rows[i]);
        assert(store::commit_in(k, down[n - 1 - j].0) == AskV::Have(down[n - 1 - j].1));
        assert(rows[j].1.parents =~= seq![rows[i].0]);
    }
}

/// A stack runs from right above its base up to its tip, oldest first, by single parents:
/// the base is the parent of the first, or the first has none. It is empty only where the
/// tip is the base, and the base is not in it.
pub proof fn a_stack_runs_from_its_base_to_its_tip(
    k: Known,
    base: Option<Oid>,
    tip: Oid,
    s: StackV,
)
    requires
        is_linear(k, base, tip, s),
    ensures
        follow_each_other(k, s.rows),
        s.below == base,
        s.rows.len() == 0 ==> base == Some(tip),
        s.rows.len() > 0 ==> {
            &&& s.rows.last().0 == tip
            &&& match base {
                Some(b) => s.rows[0].1.parents == seq![b],
                None => s.rows[0].1.parents.len() == 0,
            }
        },
        forall|i: int| 0 <= i < s.rows.len() ==> Some((#[trigger] s.rows[i]).0) != base,
{
    let down = s.rows.reverse();
    let n = s.rows.len();
    if base is None {
        lemma_chained(k, tip, down);
        assert(down.last() == s.rows[0]);
        if n > 1 {
            assert(down.drop_last()[0] == down[0]);
        }
        assert(down[0] == s.rows.last());
    } else if n > 0 {
        assert(down[n - 1] == s.rows[0]);
        assert(down[0] == s.rows.last());
        assert(store::commit_in(k, down[n - 1].0) == AskV::Have(down[n - 1].1));
        assert(s.rows[0].1.parents =~= seq![base->0]);
    }
    lemma_upwards(k, tip, down, s.rows);
    assert forall|i: int| 0 <= i < n implies Some((#[trigger] s.rows[i]).0) != base by {
        assert(down[n - 1 - i] == s.rows[i]);
    }
}

/// The window runs from right above the first merge commit up to the tip, oldest first, by
/// single parents, or from the root where there is none. No commit in it is a merge.
pub proof fn a_window_runs_from_a_merge_to_its_tip(k: Known, tip: Oid, s: StackV)
    requires
        is_window(k, tip, s),
    ensures
        follow_each_other(k, s.rows),
        s.rows.len() == 0 ==> s.below == Some(tip),
        s.rows.len() > 0 ==> {
            &&& s.rows.last().0 == tip
            &&& match s.below {
                Some(b) => s.rows[0].1.parents == seq![b],
                None => s.rows[0].1.parents.len() == 0,
            }
        },
        s.below matches Some(b) ==> k.contains_key(store::QueryV::Commit(b)) && (
        k[store::QueryV::Commit(b)] matches store::AnswerV::Commit(c) && c.parents.len() > 1),
{
    let down = s.rows.reverse();
    let n = s.rows.len();
    if s.below is None {
        lemma_chained(k, tip, down);
        assert(down.last() == s.rows[0]);
        if n > 1 {
            assert(down.drop_last()[0] == down[0]);
        }
        assert(down[0] == s.rows.last());
    } else if n > 0 {
        assert(down[n - 1] == s.rows[0]);
        assert(down[0] == s.rows.last());
        assert(store::commit_in(k, down[n - 1].0) == AskV::Have(down[n - 1].1));
        assert(s.rows[0].1.parents =~= seq![s.below->0]);
    }
    lemma_upwards(k, tip, down, s.rows);
}

/// A walk does not fail where there is a run, and what it fails with is a merge commit on
/// the way, a root above the base, or trouble of the object store.
pub proof fn a_walk_that_fails_says_why(k: Known, base: Option<Oid>, tip: Oid, e: ErrorV)
    requires
        not_linear(k, base, Reach::Base, tip, e),
    ensures
        forall|s: StackV| !(#[trigger] is_linear(k, base, tip, s)),
        match e {
            ErrorV::MergeInRange { commit } => k.contains_key(store::QueryV::Commit(commit)) && (
            k[store::QueryV::Commit(commit)] matches store::AnswerV::Commit(c) && c.parents.len()
                > 1) && base != Some(commit),
            ErrorV::BaseNotAncestor => base is Some,
            ErrorV::Git(_) => true,
            _ => false,
        },
{
    let (rows, cur) = choose|rows: Seq<(Oid, CommitV)>, cur: Oid| #[trigger]
        runs_down(k, tip, rows, cur) && (clear_of(rows, base) && base != Some(cur)) && (
        match store::commit_in(k, cur) {
            AskV::Fail(f) => e == f,
            AskV::Have(c) => {
                ||| c.parents.len() > 1 && e == (ErrorV::MergeInRange { commit: cur })
                ||| c.parents.len() == 0 && base is Some && e == ErrorV::BaseNotAncestor
            },
            AskV::Need(_) => false,
        });
    assert forall|s: StackV| !(#[trigger] is_linear(k, base, tip, s)) by {
        if is_linear(k, base, tip, s) {
            let x = s.rows.reverse();
            if base is None {
                lemma_chained(k, tip, x);
            }
            if rows.len() < x.len() {
                lemma_next(k, tip, rows, cur, x);
                lemma_alone(k, base, tip, x, rows.len() as int);
            } else {
                lemma_past(k, base, tip, rows, cur, x);
            }
        }
    }
}

/// What comes next on a run is what comes next on a longer one.
proof fn lemma_next(
    k: Known,
    tip: Oid,
    rows: Seq<(Oid, CommitV)>,
    cur: Oid,
    x: Seq<(Oid, CommitV)>,
)
    requires
        runs_down(k, tip, rows, cur),
        chained(k, tip, x),
        rows.len() < x.len(),
    ensures
        x[rows.len() as int].0 == cur,
        store::commit_in(k, cur) == AskV::Have(x[rows.len() as int].1),
{
    let n = rows.len() as int;
    assert(store::commit_in(k, x[n].0) == AskV::Have(x[n].1));
    if n > 0 {
        lemma_same_rows(k, tip, rows, x, n - 1);
        assert(rows[n - 1].1.parents[0] == cur);
        assert(x[n - 1].1.parents[0] == x[n].0);
    }
}

/// A commit of a run has one parent, or is the root that a run without a base ends at.
proof fn lemma_alone(k: Known, base: Option<Oid>, tip: Oid, x: Seq<(Oid, CommitV)>, n: int)
    requires
        0 <= n < x.len(),
        match base {
            Some(b) => runs_down(k, tip, x, b),
            None => runs_to_root(k, tip, x),
        },
    ensures
        x[n].1.parents.len() == 1 || (base is None && x[n].1.parents.len() == 0),
{
    if base is None && n < x.len() - 1 {
        assert(x.drop_last()[n].1.parents.len() == 1);
    }
}

/// No run goes on past the end of another.
proof fn lemma_past(
    k: Known,
    base: Option<Oid>,
    tip: Oid,
    rows: Seq<(Oid, CommitV)>,
    cur: Oid,
    x: Seq<(Oid, CommitV)>,
)
    requires
        runs_down(k, tip, rows, cur),
        clear_of(rows, base),
        base != Some(cur),
        chained(k, tip, x),
        match base {
            Some(b) => runs_down(k, tip, x, b),
            None => runs_to_root(k, tip, x),
        },
    ensures
        rows.len() < x.len(),
{
    if rows.len() >= x.len() {
        let z = x.len() as int;
        if let Some(b) = base {
            if z > 0 {
                lemma_same_rows(k, tip, rows, x, z - 1);
                assert(x[z - 1].1.parents[0] == b);
            }
            if z < rows.len() {
                assert(rows[z].0 == b);
            }
        } else {
            lemma_same_rows(k, tip, rows, x, z - 1);
            assert(rows[z - 1].1.parents.len() == 1);
            assert(x[z - 1] == x.last());
        }
    }
}

/// What may be rewritten is what stands above the base, where one is given, and a merge on
/// the way is then an error; otherwise it is what stands above the first merge.
pub proof fn a_window_goes_down_to_its_base(
    base: Option<Oid>,
    tip: Oid,
    w: Walk,
    l: Walk,
    v: Walk,
)
    requires
        call_ensures(window, (base, tip), w),
        call_ensures(linear_commits, (base, tip), l),
        call_ensures(linear_window, (tip,), v),
    ensures
        w.tip() == tip && l.tip() == tip && v.tip() == tip,
        w.base() == base && l.base() == base && v.base() is None,
        w.reach() == Reach::Base <==> base is Some,
        l.reach() == Reach::Base,
        v.reach() == Reach::Window,
{
}

/// A merge is told what the user asked for: whether white space counts and whose side wins;
/// without a rule conflicts abort. It always uses the patience diff.
pub proof fn a_merge_follows_its_options(how: Merge, o: MergeOptions, ignore_ws: bool, m: Merge)
    requires
        call_ensures(Merge::opts, (&how,), o),
        call_ensures(Merge::from, (ignore_ws,), m),
    ensures
        o.patience,
        o.ignore_whitespace == how.ignore_ws,
        o.file_favor == how.favor,
        m.ignore_ws == ignore_ws,
        m.favor is None,
{
}

} // verus!
