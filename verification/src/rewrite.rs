//! One rewrite from start to end: walk the range, replay it, list the refs, move
//! the branch, carry its siblings along.

use crate::engine;
use crate::engine::{JobV, Recipe, RecipeV, Replay, ReplayV, Replaying};
use crate::git;
use crate::git::{Merge, Reach, StackV, Walk};
use crate::oid::Oid;
use crate::ops;
use crate::ops::{Action, ActionV, Event, EventV, Fate, FateV, Opts, Promoting, PromotionV, RefInfo, RefV};
use crate::store;
use crate::store::{Answer, AnswerV, Ask, AskV, Known, Query, QueryV};
use crate::text;
use crate::{Error, ErrorV};
use vstd::prelude::*;

verus! {

// ── what is asked for, and what comes out ───────────────────────────────────

/// A rewrite that is asked for.
#[verifier::ext_equal]
pub struct RewriteV {
    pub branch: Seq<char>,
    pub base: Option<Oid>,
    pub tip: Oid,
    /// The commits to replay, oldest first; all of the range, where none is given.
    pub order: Option<Seq<Oid>>,
    pub recipe: RecipeV,
    pub how: Merge,
    pub drop_empty: bool,
    /// The log message.
    pub message: Seq<char>,
    /// Check the new tip out?
    pub sync: bool,
    pub dry_run: bool,
    pub no_restack: bool,
    /// Paths whose index entries are to follow the new tip.
    pub paths: Seq<Seq<char>>,
    /// Stop where nothing changed, and say nothing of signatures?
    pub lazy: bool,
    /// Stop after the replay?
    pub trial: bool,
}

/// What a rewrite did.
#[derive(Debug)]
pub struct Outcome {
    pub branch: String,
    pub old_tip: Oid,
    pub new_tip: Oid,
    /// What was left behind, and what was lost.
    pub warnings: Vec<String>,
    /// The siblings that were carried along: name, old and new commit.
    pub restacked: Vec<String>,
    /// Commits that became empty and were left out.
    pub dropped: Vec<Oid>,
}

/// An [`Outcome`] by its contents.
#[verifier::ext_equal]
pub struct OutcomeV {
    pub branch: Seq<char>,
    pub old_tip: Oid,
    pub new_tip: Oid,
    pub warnings: Seq<Seq<char>>,
    pub restacked: Seq<Seq<char>>,
    pub dropped: Seq<Oid>,
}

impl View for Outcome {
    type V = OutcomeV;

    open spec fn view(&self) -> OutcomeV {
        OutcomeV {
            branch: self.branch@,
            old_tip: self.old_tip,
            new_tip: self.new_tip,
            warnings: text::texts(self.warnings@),
            restacked: text::texts(self.restacked@),
            dropped: self.dropped@,
        }
    }
}

impl Outcome {
    /// The branch name to *print* (`main`, not `refs/heads/main`).
    pub fn short_branch(&self) -> (s: &str)
        ensures
            s@ == ops::last_part(self.branch@),
    {
        ops::short_branch(&self.branch)
    }
}

/// Why a rewrite came to nothing, and whether it was the replay that failed or the
/// promotion.
#[derive(Debug)]
pub struct Failure {
    pub replaying: bool,
    pub error: Error,
}

/// What a rewrite wants next.
#[derive(Debug)]
pub enum Step {
    /// An answer of the object store.
    Look(Query),
    /// An action.
    Act(Action),
    /// Nothing more: it is done. With it, why the index could not be refreshed.
    Done(Outcome, Option<String>),
    /// Nothing more: it failed.
    Fail(Failure),
}

impl RewriteV {
    /// The replay of the range `ids`.
    pub open spec fn job(self, ids: Seq<Oid>) -> JobV {
        JobV {
            base: self.base,
            tip: self.tip,
            ids,
            order: match self.order {
                Some(o) => o,
                None => ids,
            },
            recipe: self.recipe,
            how: self.how,
            drop_empty: self.drop_empty,
        }
    }

    /// The range is `ids`, and its replay gives `r`.
    pub open spec fn yields(self, k: Known, ids: Seq<Oid>, r: ReplayV) -> bool {
        exists|s: StackV| #[trigger]
            git::is_linear(k, self.base, self.tip, s) && s.ids() == ids && engine::replay_in(
                k,
                self.job(ids),
            ) == AskV::Have(r)
    }

    /// The range cannot be walked, or its replay fails, with `e`.
    pub open spec fn breaks(self, k: Known, e: ErrorV) -> bool {
        ||| git::not_linear(k, self.base, Reach::Base, self.tip, e)
        ||| exists|s: StackV| #[trigger]
            git::is_linear(k, self.base, self.tip, s) && engine::replay_in(k, self.job(s.ids()))
                == AskV::<ReplayV>::Fail(e)
    }

    /// The move of the branch to the rewritten tip.
    pub open spec fn promotion(self, r: ReplayV) -> PromotionV {
        PromotionV {
            branch: self.branch,
            new_tip: r.tip,
            old_tip: self.tip,
            message: self.message,
            sync: self.sync,
        }
    }
}

// ── after the replay ────────────────────────────────────────────────────────

/// A rewrite whose replay succeeded.
#[derive(Debug)]
pub struct Tail {
    pub ids: Vec<Oid>,
    pub replay: Replay,
    pub refs: Vec<RefInfo>,
    pub restacked: Vec<String>,
    pub warnings: Vec<String>,
    pub index: Option<String>,
}

/// A [`Tail`] by its contents.
#[verifier::ext_equal]
pub struct TailV {
    pub ids: Seq<Oid>,
    pub replay: ReplayV,
    pub refs: Seq<RefV>,
    pub restacked: Seq<Seq<char>>,
    pub warnings: Seq<Seq<char>>,
    pub index: Option<Seq<char>>,
}

impl View for Tail {
    type V = TailV;

    open spec fn view(&self) -> TailV {
        TailV {
            ids: self.ids@,
            replay: self.replay@,
            refs: ops::refs_view(self.refs@),
            restacked: text::texts(self.restacked@),
            warnings: text::texts(self.warnings@),
            index: crate::opt_text(self.index),
        }
    }
}

impl TailV {
    /// With one more sibling carried along.
    pub open spec fn restack(self, note: Seq<char>) -> TailV {
        TailV { restacked: self.restacked.push(note), ..self }
    }

    /// With one more warning.
    pub open spec fn warn(self, note: Seq<char>) -> TailV {
        TailV { warnings: self.warnings.push(note), ..self }
    }

    /// What becomes of the sibling at `i`.
    pub open spec fn fate(self, o: RewriteV, i: int) -> FateV {
        ops::fate_of(self.refs[i], self.ids, self.replay.map, o.no_restack)
    }

    /// What has to be done about the sibling at `i`. In a dry run none is moved.
    pub open spec fn action(self, o: RewriteV, i: int) -> Option<ActionV> {
        match self.fate(o, i) {
            FateV::Move(to) => if o.dry_run {
                None
            } else {
                Some(
                    ActionV::MoveRef {
                        name: self.refs[i].name,
                        to,
                        from: self.refs[i].target,
                        message: ops::restack_message(o.message, o.tip, self.replay.tip),
                    },
                )
            },
            FateV::Fork => Some(ActionV::MergeBase { one: self.refs[i].target, two: o.tip }),
            _ => None,
        }
    }

    /// The sibling at `i` is dealt with, and nothing had to be done.
    pub open spec fn pass(self, o: RewriteV, i: int) -> TailV {
        match self.fate(o, i) {
            FateV::Warn(w) => self.warn(w),
            FateV::Move(to) => self.restack(ops::moved_note(self.refs[i], to)),
            _ => self,
        }
    }

    /// The siblings from `i` on are dealt with, up to the first about which
    /// something has to be done.
    pub open spec fn onward(self, o: RewriteV, i: int) -> (TailV, int)
        decreases self.refs.len() - i,
    {
        if i < 0 || i >= self.refs.len() || self.action(o, i) is Some {
            (self, i)
        } else {
            self.pass(o, i).onward(o, i + 1)
        }
    }

    /// What was asked for the sibling at `i` is done, with this event.
    pub open spec fn after(self, o: RewriteV, i: int, e: EventV) -> TailV {
        let r = self.refs[i];
        match self.fate(o, i) {
            FateV::Move(to) => match e {
                EventV::Done => self.restack(ops::moved_note(r, to)),
                _ => self.warn(
                    r.short() + " could not be restacked: "@ + ops::reason(e),
                ),
            },
            _ => match e {
                EventV::Base(b) => match ops::fork_note(r, b, self.ids, self.replay.map) {
                    Some(n) => self.warn(n),
                    None => self,
                },
                _ => self,
            },
        }
    }

    /// The outcome, once every sibling is dealt with.
    pub open spec fn outcome(self, o: RewriteV) -> OutcomeV {
        OutcomeV {
            branch: o.branch,
            old_tip: o.tip,
            new_tip: self.replay.tip,
            warnings: if self.replay.unsigned.len() == 0 || o.lazy {
                self.warnings
            } else {
                self.warnings.push(ops::signature_note(self.replay.unsigned.len()))
            },
            restacked: self.restacked,
            dropped: self.replay.dropped,
        }
    }
}

/// Where a rewrite stands.
#[verifier::ext_equal]
pub enum StageV {
    /// It walks and replays.
    Working,
    /// The replay gave this; the refs are to be listed.
    Listing { ids: Seq<Oid>, replay: ReplayV },
    /// The branch is to be moved.
    Promoting { tail: TailV, at: Promoting },
    /// The index is to be refreshed.
    Indexing { tail: TailV },
    /// The siblings from `i` on are to be dealt with.
    Restacking { tail: TailV, i: int },
    Over,
}

/// The tail of a rewrite at its start.
pub open spec fn tail_of(ids: Seq<Oid>, replay: ReplayV, refs: Seq<RefV>) -> TailV {
    TailV {
        ids,
        replay,
        refs,
        restacked: Seq::empty(),
        warnings: Seq::empty(),
        index: None,
    }
}

/// What follows once the promotion stands at `at`.
pub open spec fn promoted(o: RewriteV, tail: TailV, at: Promoting) -> StageV {
    if at != Promoting::Over {
        StageV::Promoting { tail, at }
    } else if o.paths.len() > 0 {
        StageV::Indexing { tail }
    } else {
        StageV::Restacking { tail, i: 0 }
    }
}

/// How a rewrite goes on from `s` after the event `e`: the next stage, or the error
/// that ends it. A rewrite that fails here has moved no ref; one whose branch moved
/// does not fail any more.
pub open spec fn next_stage(o: RewriteV, s: StageV, e: EventV) -> Result<StageV, ErrorV> {
    match s {
        StageV::Listing { ids, replay } => match e {
            EventV::Refs(refs) => if !ops::listed(refs, o.branch) {
                Err(
                    ErrorV::Empty(
                        "the ref listing is incomplete: it lacks "@ + o.branch
                            + " — refusing to rewrite"@,
                    ),
                )
            } else {
                let tail = tail_of(ids, replay, ops::others(refs, o.branch));
                if o.dry_run {
                    Ok(StageV::Restacking { tail, i: 0 })
                } else {
                    Ok(promoted(o, tail, o.promotion(replay).start()))
                }
            },
            _ => Err(ErrorV::Git(ops::reason(e))),
        },
        StageV::Promoting { tail, at } => match o.promotion(tail.replay).after(at, e) {
            Ok(p) => Ok(promoted(o, tail, p)),
            Err(f) => Err(f),
        },
        StageV::Indexing { tail } => Ok(
            StageV::Restacking {
                tail: match e {
                    EventV::Done => tail,
                    _ => TailV { index: Some(ops::reason(e)), ..tail },
                },
                i: 0,
            },
        ),
        StageV::Restacking { tail, i } => Ok(
            StageV::Restacking { tail: tail.after(o, i, e), i: i + 1 },
        ),
        _ => Ok(s),
    }
}

// ── the rewrite as a conversation ───────────────────────────────────────────

/// An optional list by its contents.
pub open spec fn opt_list(v: Option<Vec<Oid>>) -> Option<Seq<Oid>> {
    match v {
        Some(v) => Some(v@),
        None => None,
    }
}

#[derive(Debug)]
enum Phase {
    Walk(Recipe, Option<Vec<Oid>>, Walk),
    Replay(Vec<Oid>, Replaying),
    List(Vec<Oid>, Replay),
    Promote(Tail, Promoting),
    Index(Tail),
    Restack(Tail, usize),
    Over,
}

/// A rewrite in progress.
pub struct Rewrite {
    branch: String,
    base: Option<Oid>,
    tip: Oid,
    how: Merge,
    drop_empty: bool,
    message: String,
    sync: bool,
    dry_run: bool,
    no_restack: bool,
    paths: Vec<String>,
    lazy: bool,
    trial: bool,
    phase: Phase,
    asked: Ghost<RewriteV>,
}

impl Rewrite {
    /// What it was asked for.
    pub closed spec fn asked(&self) -> RewriteV {
        self.asked@
    }

    /// Where it stands.
    pub closed spec fn stage(&self) -> StageV {
        match self.phase {
            Phase::Walk(_, _, _) => StageV::Working,
            Phase::Replay(_, _) => StageV::Working,
            Phase::List(ids, r) => StageV::Listing { ids: ids@, replay: r@ },
            Phase::Promote(t, at) => StageV::Promoting { tail: t@, at },
            Phase::Index(t) => StageV::Indexing { tail: t@ },
            Phase::Restack(t, i) => StageV::Restacking { tail: t@, i: i as int },
            Phase::Over => StageV::Over,
        }
    }

    pub closed spec fn wf(&self) -> bool {
        let o = self.asked@;
        &&& o.branch == self.branch@
        &&& o.base == self.base
        &&& o.tip == self.tip
        &&& o.how == self.how
        &&& o.drop_empty == self.drop_empty
        &&& o.message == self.message@
        &&& o.sync == self.sync
        &&& o.dry_run == self.dry_run
        &&& o.no_restack == self.no_restack
        &&& o.paths == text::texts(self.paths@)
        &&& o.lazy == self.lazy
        &&& o.trial == self.trial
        &&& match self.phase {
            Phase::Walk(recipe, order, w) => {
                &&& o.recipe == recipe@
                &&& o.order == opt_list(order)
                &&& w.wf()
                &&& w.reach() == Reach::Base
                &&& w.base() == o.base
                &&& w.tip() == o.tip
            },
            Phase::Replay(ids, r) => r.wf() && r.job() == o.job(ids@),
            Phase::Restack(t, i) => i <= t@.refs.len(),
            _ => true,
        }
    }

    /// `k` answers as the rewrite was answered so far.
    pub closed spec fn agrees(&self, k: Known) -> bool {
        let o = self.asked@;
        match self.phase {
            Phase::Walk(_, _, w) => w.agrees(k),
            Phase::Replay(ids, r) => {
                &&& r.heard().submap_of(k)
                &&& r.outcome(k) == engine::replay_in(k, o.job(ids@))
                &&& exists|s: StackV| #[trigger]
                    git::is_linear(k, o.base, o.tip, s) && s.ids() == ids@
            },
            Phase::List(ids, r) => o.yields(k, ids@, r@),
            Phase::Promote(t, _) => o.yields(k, t@.ids, t@.replay),
            Phase::Index(t) => o.yields(k, t@.ids, t@.replay),
            Phase::Restack(t, _) => o.yields(k, t@.ids, t@.replay),
            Phase::Over => true,
        }
    }

    /// The answers of the object store that it still works from.
    pub closed spec fn heard(&self) -> Known {
        match self.phase {
            Phase::Walk(_, _, w) => w.heard(),
            Phase::Replay(_, r) => r.heard(),
            _ => Map::empty(),
        }
    }

    /// How far the walk and the replay have come: the commits walked past, then what
    /// the replay is through with.
    pub closed spec fn came(&self) -> (nat, nat) {
        match self.phase {
            Phase::Walk(_, _, w) => (0, w.depth()),
            Phase::Replay(_, r) => (1 + r.came().0, r.came().1),
            _ => (0, 0),
        }
    }

    /// The question it cannot go on without.
    pub closed spec fn wants(&self, q: QueryV) -> bool {
        match self.phase {
            Phase::Walk(_, _, w) => w.wants(q),
            Phase::Replay(_, r) => !r.heard().contains_key(q) && forall|k: Known|
                r.heard().submap_of(k) && !k.contains_key(q) ==> #[trigger] r.outcome(k)
                    == AskV::<ReplayV>::Need(q),
            _ => false,
        }
    }

    /// Rewrite `base..tip` on `branch`: replay the commits of `order` (all of them,
    /// where none is given) with `recipe`, then promote.
    pub fn new(
        branch: String,
        base: Option<Oid>,
        tip: Oid,
        order: Option<Vec<Oid>>,
        recipe: Recipe,
        drop_empty: bool,
        message: String,
        sync: bool,
        opts: &Opts,
    ) -> (r: Rewrite)
        ensures
            r.wf(),
            r.stage() == StageV::Working,
            r.heard() == Map::<QueryV, AnswerV>::empty(),
            r.came() == (0nat, 0nat),
            r.asked() == (RewriteV {
                branch: branch@,
                base,
                tip,
                order: opt_list(order),
                recipe: recipe@,
                how: opts.spec_merge(),
                drop_empty,
                message: message@,
                sync,
                dry_run: opts.dry_run,
                no_restack: opts.no_restack,
                paths: Seq::empty(),
                lazy: false,
                trial: false,
            }),
            forall|k: Known| #[trigger] r.agrees(k),
    {
        let ghost asked = RewriteV {
            branch: branch@,
            base,
            tip,
            order: opt_list(order),
            recipe: recipe@,
            how: opts.spec_merge(),
            drop_empty,
            message: message@,
            sync,
            dry_run: opts.dry_run,
            no_restack: opts.no_restack,
            paths: Seq::empty(),
            lazy: false,
            trial: false,
        };
        let paths: Vec<String> = Vec::new();
        assert(text::texts(paths@) =~= Seq::empty());
        Rewrite {
            branch,
            base,
            tip,
            how: opts.merge(),
            drop_empty,
            message,
            sync,
            dry_run: opts.dry_run,
            no_restack: opts.no_restack,
            paths,
            lazy: false,
            trial: false,
            phase: Phase::Walk(recipe, order, git::linear_commits(base, tip)),
            asked: Ghost(asked),
        }
    }

    /// The same, but stop where nothing changed, and let the index entries of
    /// `paths` follow the new tip.
    pub fn quietly(self, paths: Vec<String>) -> (r: Rewrite)
        requires
            self.wf(),
        ensures
            r.wf(),
            r.stage() == self.stage(),
            r.heard() == self.heard(),
            r.came() == self.came(),
            r.asked() == (RewriteV { paths: text::texts(paths@), lazy: true, ..self.asked() }),
            self.stage() == StageV::Working ==> forall|k: Known|
                self.agrees(k) ==> #[trigger] r.agrees(k),
    {
        let ghost asked = RewriteV { paths: text::texts(paths@), lazy: true, ..self.asked@ };
        proof {
            assert forall|ids: Seq<Oid>| #[trigger] asked.job(ids) == self.asked@.job(ids) by {}
        }
        Rewrite { paths, lazy: true, asked: Ghost(asked), ..self }
    }

    /// The same, but stop after the replay: nothing is promoted.
    pub fn for_trial(self) -> (r: Rewrite)
        requires
            self.wf(),
        ensures
            r.wf(),
            r.stage() == self.stage(),
            r.heard() == self.heard(),
            r.came() == self.came(),
            r.asked() == (RewriteV { trial: true, ..self.asked() }),
            self.stage() == StageV::Working ==> forall|k: Known|
                self.agrees(k) ==> #[trigger] r.agrees(k),
    {
        let ghost asked = RewriteV { trial: true, ..self.asked@ };
        proof {
            assert forall|ids: Seq<Oid>| #[trigger] asked.job(ids) == self.asked@.job(ids) by {}
        }
        Rewrite { trial: true, asked: Ghost(asked), ..self }
    }

    /// Hear an answer of the object store.
    pub fn hear(&mut self, q: Query, a: Answer)
        requires
            old(self).wf(),
        ensures
            final(self).wf(),
            final(self).asked() == old(self).asked(),
            final(self).stage() == old(self).stage(),
            final(self).came() == old(self).came(),
            old(self).wants(q@) ==> final(self).heard() == old(self).heard().insert(q@, a@),
            forall|k: Known|
                (#[trigger] old(self).agrees(k) && k.contains_key(q@) && k[q@] == a@)
                    ==> final(self).agrees(k),
    {
        match &mut self.phase {
            Phase::Walk(_, _, w) => w.answer(q, a),
            Phase::Replay(_, r) => r.answer(q, a),
            _ => {},
        }
    }
}

impl Tail {
    /// See [`TailV::onward`].
    fn onward(&mut self, i: usize, dry_run: bool, no_restack: bool, Ghost(o): Ghost<RewriteV>) -> (r:
        usize)
        requires
            i <= old(self)@.refs.len(),
            o.dry_run == dry_run,
            o.no_restack == no_restack,
        ensures
            (final(self)@, r as int) == old(self)@.onward(o, i as int),
            i <= r <= final(self)@.refs.len(),
            final(self)@.refs == old(self)@.refs,
    {
        let mut n: usize = i;
        while n < self.refs.len()
            invariant
                i <= n <= self@.refs.len(),
                self@.refs == old(self)@.refs,
                self@.onward(o, n as int) == old(self)@.onward(o, i as int),
                o.dry_run == dry_run,
                o.no_restack == no_restack,
            ensures
                i <= n <= self@.refs.len(),
                self@.refs == old(self)@.refs,
                (self@, n as int) == old(self)@.onward(o, i as int),
            decreases self@.refs.len() - n,
        {
            let ghost before = self@;
            assert(before.refs[n as int] == self.refs@[n as int]@);
            match ops::fate(&self.refs[n], &self.ids, &self.replay.map, no_restack) {
                Fate::Leave => {},
                Fate::Warn(w) => {
                    let ghost note = w@;
                    self.warnings.push(w);
                    assert(self@ =~= before.warn(note));
                },
                Fate::Move(to) => {
                    if !dry_run {
                        break;
                    }
                    let note = ops::moved(&self.refs[n], to);
                    let ghost text = note@;
                    self.restacked.push(note);
                    assert(self@ =~= before.restack(text));
                },
                Fate::Fork => {
                    break;
                },
            }
            n += 1;
        }
        n
    }

    /// See [`TailV::action`].
    fn action(
        &self,
        i: usize,
        dry_run: bool,
        no_restack: bool,
        message: &str,
        tip: Oid,
        Ghost(o): Ghost<RewriteV>,
    ) -> (a: Option<Action>)
        requires
            i < self@.refs.len(),
            o.dry_run == dry_run,
            o.no_restack == no_restack,
            o.message == message@,
            o.tip == tip,
        ensures
            match a {
                Some(a) => self@.action(o, i as int) == Some(a@),
                None => self@.action(o, i as int) is None,
            },
    {
        assert(self@.refs[i as int] == self.refs@[i as int]@);
        let r = &self.refs[i];
        match ops::fate(r, &self.ids, &self.replay.map, no_restack) {
            Fate::Move(to) => {
                if dry_run {
                    return None;
                }
                Some(
                    Action::MoveRef {
                        name: r.name.clone(),
                        to,
                        from: r.target,
                        message: ops::restacking(message, tip, self.replay.tip),
                    },
                )
            },
            Fate::Fork => Some(Action::MergeBase { one: r.target, two: tip }),
            _ => None,
        }
    }

    /// See [`TailV::after`].
    fn after(&mut self, i: usize, e: Event, no_restack: bool, Ghost(o): Ghost<RewriteV>)
        requires
            i < old(self)@.refs.len(),
            o.no_restack == no_restack,
        ensures
            final(self)@ == old(self)@.after(o, i as int, e@),
    {
        let ghost before = self@;
        assert(before.refs[i as int] == self.refs@[i as int]@);
        let r = &self.refs[i];
        match ops::fate(r, &self.ids, &self.replay.map, no_restack) {
            Fate::Move(to) => match e {
                Event::Done => {
                    let note = ops::moved(r, to);
                    let ghost text = note@;
                    self.restacked.push(note);
                    assert(self@ =~= before.restack(text));
                },
                e => {
                    let note = ops::short_branch(&r.name).to_owned().concat(
                        " could not be restacked: ",
                    ).concat(&ops::reason_of(e));
                    let ghost text = note@;
                    self.warnings.push(note);
                    assert(self@ =~= before.warn(text));
                },
            },
            _ => match e {
                Event::Base(b) => {
                    if let Some(note) = ops::forked(r, b, &self.ids, &self.replay.map) {
                        let ghost text = note@;
                        self.warnings.push(note);
                        assert(self@ =~= before.warn(text));
                    }
                },
                _ => {},
            },
        }
    }

    /// See [`TailV::outcome`].
    fn outcome(self, branch: String, tip: Oid, lazy: bool, Ghost(o): Ghost<RewriteV>) -> (r: (
        Outcome,
        Option<String>,
    ))
        requires
            o.branch == branch@,
            o.tip == tip,
            o.lazy == lazy,
        ensures
            r.0@ == self@.outcome(o),
            crate::opt_text(r.1) == self@.index,
    {
        let mut warnings = self.warnings;
        if self.replay.unsigned.len() > 0 && !lazy {
            let note = text::decimal(self.replay.unsigned.len()).concat(
                " GPG signature(s) dropped — re-sign with `git rebase --exec 'git commit --amend --no-edit -S'`",
            );
            let ghost before = text::texts(warnings@);
            warnings.push(note);
            assert(text::texts(warnings@) =~= before.push(note@));
        }
        (
            Outcome {
                branch,
                old_tip: tip,
                new_tip: self.replay.tip,
                warnings,
                restacked: self.restacked,
                dropped: self.replay.dropped,
            },
            self.index,
        )
    }
}

impl StageV {
    /// What is to be done at this stage.
    pub open spec fn action(self, o: RewriteV) -> Option<ActionV> {
        match self {
            StageV::Listing { .. } => Some(ActionV::ListRefs),
            StageV::Promoting { tail, at } => o.promotion(tail.replay).action(at),
            StageV::Indexing { tail } => Some(
                ActionV::RefreshIndex { tip: tail.replay.tip, paths: o.paths },
            ),
            StageV::Restacking { tail, i } => if 0 <= i < tail.refs.len() {
                tail.action(o, i)
            } else {
                None
            },
            _ => None,
        }
    }
}

/// What was heard is kept, or has brought the rewrite further.
spec fn onward(from: Rewrite, to: Rewrite) -> bool {
    store::further(from.came(), to.came()) || (to.came() == from.came() && to.heard()
        == from.heard())
}

impl Rewrite {
    /// Walk on.
    fn walk(&mut self, recipe: Recipe, order: Option<Vec<Oid>>, w: Walk) -> (r: Option<Step>)
        requires
            (Rewrite { phase: Phase::Walk(recipe, order, w), ..*old(self) }).wf(),
        ensures
            final(self).wf(),
            final(self).asked() == old(self).asked(),
            match r {
                None => final(self).phase is Replay && forall|k: Known|
                    w.agrees(k) ==> #[trigger] final(self).agrees(k),
                Some(Step::Look(q)) => final(self).phase is Walk && final(self).wants(q@)
                    && onward(
                    Rewrite { phase: Phase::Walk(recipe, order, w), ..*old(self) },
                    *final(self),
                ) && forall|k: Known| w.agrees(k) ==> #[trigger] final(self).agrees(k),
                Some(Step::Fail(f)) => f.replaying && final(self).phase is Over && forall|k: Known|
                    #[trigger] w.agrees(k) ==> old(self).asked().breaks(k, f.error@),
                _ => false,
            },
    {
        let mut w = w;
        let ghost was = w;
        match w.next() {
            Ask::Need(q) => {
                self.phase = Phase::Walk(recipe, order, w);
                Some(Step::Look(q))
            },
            Ask::Fail(error) => {
                self.phase = Phase::Over;
                Some(Step::Fail(Failure { replaying: true, error }))
            },
            Ask::Have(s) => {
                let ids = s.ids();
                let all = ids.clone();
                assert(all@ =~= ids@);
                let r = match order {
                    Some(order) => Replaying::new(
                        self.base,
                        self.tip,
                        all,
                        order,
                        recipe,
                        self.how,
                        self.drop_empty,
                    ),
                    None => engine::replay_opts(
                        self.base,
                        self.tip,
                        all,
                        recipe,
                        self.how,
                        self.drop_empty,
                    ),
                };
                proof {
                    assert(r.job() == self.asked@.job(ids@));
                    assert forall|k: Known| was.agrees(k) implies exists|s: StackV| #[trigger]
                        git::is_linear(k, self.asked@.base, self.asked@.tip, s) && s.ids()
                            == ids@ by {
                        assert(git::is_linear(k, self.asked@.base, self.asked@.tip, s@));
                    }
                    assert forall|k: Known| r.heard().submap_of(k) by {}
                }
                self.phase = Phase::Replay(ids, r);
                None
            },
        }
    }

    /// Replay on.
    fn replay(&mut self, ids: Vec<Oid>, r: Replaying) -> (step: Option<Step>)
        requires
            (Rewrite { phase: Phase::Replay(ids, r), ..*old(self) }).wf(),
        ensures
            final(self).wf(),
            final(self).asked() == old(self).asked(),
            ({
                let before = Rewrite { phase: Phase::Replay(ids, r), ..*old(self) };
                match step {
                    None => final(self).phase is List && forall|k: Known| #[trigger]
                        before.agrees(k) ==> final(self).agrees(k),
                    Some(Step::Look(q)) => final(self).phase is Replay && final(self).wants(q@)
                        && onward(before, *final(self)) && forall|k: Known| #[trigger]
                        before.agrees(k) ==> final(self).agrees(k),
                    Some(Step::Fail(f)) => f.replaying && final(self).phase is Over && forall|
                        k: Known,
                    | #[trigger]
                        before.agrees(k) ==> old(self).asked().breaks(k, f.error@),
                    _ => false,
                }
            }),
    {
        let ghost before = Rewrite { phase: Phase::Replay(ids, r), ..*self };
        let ghost o = self.asked@;
        let mut r = r;
        match r.next() {
            Ask::Need(q) => {
                self.phase = Phase::Replay(ids, r);
                Some(Step::Look(q))
            },
            Ask::Fail(error) => {
                self.phase = Phase::Over;
                proof {
                    assert forall|k: Known| #[trigger] before.agrees(k) implies o.breaks(
                        k,
                        error@,
                    ) by {
                        let s = choose|s: StackV| #[trigger]
                            git::is_linear(k, o.base, o.tip, s) && s.ids() == ids@;
                        assert(git::is_linear(k, o.base, o.tip, s));
                    }
                }
                Some(Step::Fail(Failure { replaying: true, error }))
            },
            Ask::Have(replay) => {
                proof {
                    assert forall|k: Known| #[trigger] before.agrees(k) implies o.yields(
                        k,
                        ids@,
                        replay@,
                    ) by {
                        let s = choose|s: StackV| #[trigger]
                            git::is_linear(k, o.base, o.tip, s) && s.ids() == ids@;
                        assert(git::is_linear(k, o.base, o.tip, s));
                    }
                }
                self.phase = Phase::List(ids, replay);
                None
            },
        }
    }
}

/// `step` is what a rewrite that was asked for `o` may say when it comes out of its
/// replay, or of the walk before it, and then stands as `after`. `same(k)` tells
/// whether `k` answers as it was answered.
pub open spec fn works_out(
    o: RewriteV,
    step: Step,
    after: StageV,
    same: spec_fn(Known) -> bool,
) -> bool {
    match step {
        Step::Look(_) => after == StageV::Working,
        Step::Act(a) => {
            &&& !o.trial
            &&& a@ == ActionV::ListRefs
            &&& after matches StageV::Listing { ids, replay }
            &&& o.lazy ==> replay.tip != o.tip
            &&& forall|k: Known| #[trigger] same(k) ==> o.yields(k, ids, replay)
        },
        Step::Done(out, index) => {
            &&& index is None
            &&& after == StageV::Over
            &&& exists|ids: Seq<Oid>, replay: ReplayV|
                {
                    &&& o.trial || (o.lazy && replay.tip == o.tip)
                    &&& out@ == (#[trigger] tail_of(ids, replay, Seq::empty())).outcome(o)
                    &&& forall|k: Known| #[trigger] same(k) ==> o.yields(k, ids, replay)
                }
        },
        Step::Fail(f) => {
            &&& f.replaying
            &&& after == StageV::Over
            &&& forall|k: Known| #[trigger] same(k) ==> o.breaks(k, f.error@)
        },
    }
}

/// `step` is what a rewrite past its replay says, coming from `before` and then
/// standing as `after`.
pub open spec fn goes_on(o: RewriteV, before: StageV, step: Step, after: StageV) -> bool {
    let at = match before {
        StageV::Restacking { tail, i } => {
            let (t, j) = tail.onward(o, i);
            StageV::Restacking { tail: t, i: j }
        },
        _ => before,
    };
    match at.action(o) {
        Some(a) => step matches Step::Act(x) && x@ == a && after == at,
        None => {
            &&& after == StageV::Over
            &&& match at {
                StageV::Restacking { tail, .. } => {
                    &&& step matches Step::Done(out, index)
                    &&& out@ == tail.outcome(o)
                    &&& crate::opt_text(index) == tail.index
                },
                _ => step is Fail,
            }
        },
    }
}

impl Rewrite {
    /// Walk and replay on.
    fn work(&mut self) -> (step: Step)
        requires
            old(self).wf(),
            old(self).phase is Walk || old(self).phase is Replay,
        ensures
            final(self).wf(),
            final(self).asked() == old(self).asked(),
            step matches Step::Look(q) ==> final(self).wants(q@) && onward(
                *old(self),
                *final(self),
            ),
            works_out(
                old(self).asked(),
                step,
                final(self).stage(),
                |k: Known| old(self).agrees(k),
            ),
            forall|k: Known| #[trigger] old(self).agrees(k) ==> final(self).agrees(k),
    {
        let ghost o = self.asked@;
        let ghost start = *self;
        let mut phase = Phase::Over;
        std::mem::swap(&mut phase, &mut self.phase);
        if let Phase::Walk(recipe, order, w) = phase {
            assert(Rewrite { phase: Phase::Walk(recipe, order, w), ..*self } == start);
            if let Some(step) = self.walk(recipe, order, w) {
                return step;
            }
            phase = Phase::Over;
            std::mem::swap(&mut phase, &mut self.phase);
        }
        let ghost mid = Rewrite { phase, ..*self };
        assert(mid.wf() && phase is Replay);
        assert forall|k: Known| #[trigger] start.agrees(k) implies mid.agrees(k) by {}
        if let Phase::Replay(ids, r) = phase {
            if let Some(step) = self.replay(ids, r) {
                return step;
            }
        }
        assert(self.phase is List);
        assert forall|k: Known| #[trigger] start.agrees(k) implies self.agrees(k) by {
            assert(mid.agrees(k));
        }
        let same = match &self.phase {
            Phase::List(_, replay) => replay.tip == self.tip,
            _ => false,
        };
        if self.trial || (self.lazy && same) {
            phase = Phase::Over;
            std::mem::swap(&mut phase, &mut self.phase);
            if let Phase::List(ids, replay) = phase {
                let tail = Tail {
                    ids,
                    replay,
                    refs: Vec::new(),
                    restacked: Vec::new(),
                    warnings: Vec::new(),
                    index: None,
                };
                assert(tail@ =~= tail_of(ids@, replay@, Seq::empty()));
                let (out, index) = tail.outcome(self.branch.clone(), self.tip, self.lazy, Ghost(o));
                return Step::Done(out, index);
            }
        }
        Step::Act(Action::ListRefs)
    }

    /// Go on after the replay.
    fn go_on(&mut self) -> (step: Step)
        requires
            old(self).wf(),
            !(old(self).phase is Walk) && !(old(self).phase is Replay),
        ensures
            final(self).wf(),
            final(self).asked() == old(self).asked(),
            !(step is Look),
            goes_on(old(self).asked(), old(self).stage(), step, final(self).stage()),
            forall|k: Known| #[trigger] old(self).agrees(k) ==> final(self).agrees(k),
    {
        let ghost o = self.asked@;
        let ghost start = *self;
        let mut phase = Phase::Over;
        std::mem::swap(&mut phase, &mut self.phase);
        match phase {
            Phase::List(ids, replay) => {
                self.phase = Phase::List(ids, replay);
                Step::Act(Action::ListRefs)
            },
            Phase::Promote(tail, at) => {
                let p = ops::promote(
                    &self.branch,
                    tail.replay.tip,
                    self.tip,
                    &self.message,
                    self.sync,
                );
                assert(p@ == o.promotion(tail@.replay));
                match p.action(at) {
                    Some(a) => {
                        self.phase = Phase::Promote(tail, at);
                        Step::Act(a)
                    },
                    None => Step::Fail(
                        Failure {
                            replaying: false,
                            error: Error::Git("the rewrite is over".to_owned()),
                        },
                    ),
                }
            },
            Phase::Index(tail) => {
                let a = Action::RefreshIndex {
                    tip: tail.replay.tip,
                    paths: text::copy_texts(&self.paths),
                };
                self.phase = Phase::Index(tail);
                Step::Act(a)
            },
            Phase::Restack(tail, i) => {
                let ghost t = tail@;
                let mut tail = tail;
                proof {
                    lemma_onward_stops(t, o, i as int);
                }
                let j = tail.onward(i, self.dry_run, self.no_restack, Ghost(o));
                if j < tail.refs.len() {
                    let a = tail.action(
                        j,
                        self.dry_run,
                        self.no_restack,
                        &self.message,
                        self.tip,
                        Ghost(o),
                    );
                    if let Some(a) = a {
                        self.phase = Phase::Restack(tail, j);
                        return Step::Act(a);
                    }
                }
                let (out, index) = tail.outcome(self.branch.clone(), self.tip, self.lazy, Ghost(o));
                Step::Done(out, index)
            },
            _ => Step::Fail(
                Failure { replaying: false, error: Error::Git("the rewrite is over".to_owned()) },
            ),
        }
    }

    /// Work on as far as the answers and events go, and say what is needed next. Up
    /// to the replay's end that is only ever an answer of the object store, so a
    /// replay that fails has touched nothing. It asks for nothing that it was told,
    /// and forgets an answer only once it has come further by it.
    pub fn next(&mut self) -> (step: Step)
        requires
            old(self).wf(),
        ensures
            final(self).wf(),
            final(self).asked() == old(self).asked(),
            step matches Step::Look(q) ==> {
                &&& final(self).wants(q@)
                &&& !final(self).heard().contains_key(q@)
                &&& store::further(old(self).came(), final(self).came()) || (final(self).came()
                    == old(self).came() && final(self).heard() == old(self).heard())
            },
            old(self).stage() == StageV::Working ==> works_out(
                old(self).asked(),
                step,
                final(self).stage(),
                |k: Known| old(self).agrees(k),
            ),
            old(self).stage() != StageV::Working ==> goes_on(
                old(self).asked(),
                old(self).stage(),
                step,
                final(self).stage(),
            ),
            forall|k: Known| #[trigger] old(self).agrees(k) ==> final(self).agrees(k),
    {
        let working = match &self.phase {
            Phase::Walk(_, _, _) => true,
            Phase::Replay(_, _) => true,
            _ => false,
        };
        if working {
            self.work()
        } else {
            self.go_on()
        }
    }

    /// Hear what came of the action that was asked for. Gives the failure that ends
    /// the rewrite, if it does.
    pub fn react(&mut self, e: Event) -> (r: Option<Failure>)
        requires
            old(self).wf(),
            old(self).stage() matches StageV::Restacking { tail, i } ==> i < tail.refs.len(),
        ensures
            final(self).wf(),
            final(self).asked() == old(self).asked(),
            match next_stage(old(self).asked(), old(self).stage(), e@) {
                Ok(s) => r is None && final(self).stage() == s,
                Err(f) => r matches Some(x) && !x.replaying && x.error@ == f && final(self).stage()
                    == StageV::Over,
            },
            forall|k: Known| #[trigger] old(self).agrees(k) ==> final(self).agrees(k),
    {
        let mut phase = Phase::Over;
        std::mem::swap(&mut phase, &mut self.phase);
        match phase {
            Phase::List(ids, replay) => self.list(ids, replay, e),
            Phase::Promote(tail, at) => self.promote(tail, at, e),
            Phase::Index(tail) => {
                self.index(tail, e);
                None
            },
            Phase::Restack(tail, i) => {
                self.restack(tail, i, e);
                None
            },
            p => {
                self.phase = p;
                None
            },
        }
    }

    /// The index is refreshed, or not.
    fn index(&mut self, tail: Tail, e: Event)
        requires
            (Rewrite { phase: Phase::Index(tail), ..*old(self) }).wf(),
        ensures
            final(self).wf(),
            final(self).asked() == old(self).asked(),
            next_stage(old(self).asked(), StageV::Indexing { tail: tail@ }, e@) == Ok::<
                StageV,
                ErrorV,
            >(final(self).stage()),
            forall|k: Known|
                old(self).asked().yields(k, tail@.ids, tail@.replay) ==> #[trigger]
                final(self).agrees(k),
    {
        let mut tail = tail;
        let ghost t = tail@;
        match e {
            Event::Done => {},
            e => {
                let why = ops::reason_of(e);
                let ghost m = why@;
                tail.index = Some(why);
                assert(tail@ =~= (TailV { index: Some(m), ..t }));
            },
        }
        self.phase = Phase::Restack(tail, 0);
    }

    /// The sibling at `i` is dealt with.
    fn restack(&mut self, tail: Tail, i: usize, e: Event)
        requires
            (Rewrite { phase: Phase::Restack(tail, i), ..*old(self) }).wf(),
            i < tail@.refs.len(),
        ensures
            final(self).wf(),
            final(self).asked() == old(self).asked(),
            next_stage(
                old(self).asked(),
                StageV::Restacking { tail: tail@, i: i as int },
                e@,
            ) == Ok::<StageV, ErrorV>(final(self).stage()),
            forall|k: Known|
                old(self).asked().yields(k, tail@.ids, tail@.replay) ==> #[trigger]
                final(self).agrees(k),
    {
        let mut tail = tail;
        let ghost t = tail@;
        let n: usize = tail.refs.len();
        assert(i < n);
        tail.after(i, e, self.no_restack, Ghost(self.asked@));
        assert(tail@.refs == t.refs && tail@.ids == t.ids && tail@.replay == t.replay);
        self.phase = Phase::Restack(tail, i + 1);
    }

    /// The promotion goes on, or fails.
    fn promote(&mut self, tail: Tail, at: Promoting, e: Event) -> (r: Option<Failure>)
        requires
            (Rewrite { phase: Phase::Promote(tail, at), ..*old(self) }).wf(),
            old(self).phase is Over,
        ensures
            final(self).wf(),
            final(self).asked() == old(self).asked(),
            match next_stage(old(self).asked(), StageV::Promoting { tail: tail@, at }, e@) {
                Ok(s) => r is None && final(self).stage() == s,
                Err(f) => r matches Some(x) && !x.replaying && x.error@ == f && final(self).stage()
                    == StageV::Over,
            },
            forall|k: Known|
                old(self).asked().yields(k, tail@.ids, tail@.replay) ==> #[trigger]
                final(self).agrees(k),
    {
        let p = ops::promote(
            &self.branch,
            tail.replay.tip,
            self.tip,
            &self.message,
            self.sync,
        );
        assert(p@ == self.asked@.promotion(tail@.replay));
        match p.after(at, e) {
            Ok(at) => {
                self.promoted(tail, at);
                None
            },
            Err(error) => Some(Failure { replaying: false, error }),
        }
    }

    /// The refs are listed, or not.
    fn list(&mut self, ids: Vec<Oid>, replay: Replay, e: Event) -> (r: Option<Failure>)
        requires
            (Rewrite { phase: Phase::List(ids, replay), ..*old(self) }).wf(),
            old(self).phase is Over,
        ensures
            final(self).wf(),
            final(self).asked() == old(self).asked(),
            match next_stage(
                old(self).asked(),
                StageV::Listing { ids: ids@, replay: replay@ },
                e@,
            ) {
                Ok(s) => r is None && final(self).stage() == s,
                Err(f) => r matches Some(x) && !x.replaying && x.error@ == f && final(self).stage()
                    == StageV::Over,
            },
            forall|k: Known|
                old(self).asked().yields(k, ids@, replay@) ==> #[trigger] final(self).agrees(k),
    {
        let ghost o = self.asked@;
        let refs = match e {
            Event::Refs(refs) => refs,
            e => return Some(Failure { replaying: false, error: Error::Git(ops::reason_of(e)) }),
        };
        let refs = match ops::sibling_refs(refs, &self.branch) {
            Ok(v) => v,
            Err(error) => return Some(Failure { replaying: false, error }),
        };
        let tail = Tail {
            ids,
            replay,
            refs,
            restacked: Vec::new(),
            warnings: Vec::new(),
            index: None,
        };
        assert(tail@ =~= tail_of(ids@, replay@, ops::refs_view(refs@)));
        if self.dry_run {
            self.phase = Phase::Restack(tail, 0);
        } else {
            let p = ops::promote(
                &self.branch,
                tail.replay.tip,
                self.tip,
                &self.message,
                self.sync,
            );
            assert(p@ == o.promotion(tail@.replay));
            let at = p.start();
            self.promoted(tail, at);
        }
        None
    }

    /// What follows once the promotion stands at `at`.
    fn promoted(&mut self, tail: Tail, at: Promoting)
        requires
            (Rewrite { phase: Phase::Promote(tail, at), ..*old(self) }).wf(),
        ensures
            final(self).wf(),
            final(self).asked() == old(self).asked(),
            final(self).stage() == promoted(old(self).asked(), tail@, at),
            forall|k: Known|
                old(self).asked().yields(k, tail@.ids, tail@.replay) ==> #[trigger]
                final(self).agrees(k),
    {
        if at != Promoting::Over {
            self.phase = Phase::Promote(tail, at);
        } else if self.paths.len() > 0 {
            self.phase = Phase::Index(tail);
        } else {
            self.phase = Phase::Restack(tail, 0);
        }
    }
}

proof fn lemma_onward_stops(t: TailV, o: RewriteV, i: int)
    requires
        0 <= i <= t.refs.len(),
    ensures
        ({
            let (u, j) = t.onward(o, i);
            &&& i <= j <= t.refs.len()
            &&& u.refs == t.refs
            &&& u.ids == t.ids
            &&& u.replay == t.replay
            &&& j < t.refs.len() ==> u.action(o, j) is Some
        }),
    decreases t.refs.len() - i,
{
    if i < t.refs.len() && t.action(o, i) is None {
        lemma_onward_stops(t.pass(o, i), o, i + 1);
    }
}

} // verus!
