//! What holds of the refs: which of them a rewrite moves, and where an undo takes them.

use crate::engine;
use crate::engine::{Recipe, ReplayV};
use crate::git;
use crate::git::StackV;
use crate::oid::Oid;
use crate::ops;
use crate::ops::{ActionV, EventV, FateV, LogEntry, LogV, Opts, Promoting, PromotionV, RefV, Status};
use crate::recipe::{Plan, Shaped};
use crate::rewrite;
use crate::rewrite::{Rewrite, RewriteV, StageV, Step, TailV};
use crate::store::{AskV, Known};
use crate::undo;
use crate::undo::{BackV, Undo, UndoStageV, UndoV};
use crate::{Error, ErrorV};
use vstd::prelude::*;

verus! {

// ── names and guards ────────────────────────────────────────────────────────

/// The short name of a ref is its end: the longest without a slash.
pub proof fn a_short_name_follows_the_last_slash(name: Seq<char>)
    ensures
        ({
            let s = ops::last_part(name);
            let at = name.len() - s.len();
            &&& 0 <= at
            &&& s == name.skip(at)
            &&& !s.contains('/')
            &&& at > 0 ==> name[at - 1] == '/'
        }),
    decreases name.len(),
{
    let s = ops::last_part(name);
    if name.len() > 0 && name.last() != '/' {
        let front = name.drop_last();
        a_short_name_follows_the_last_slash(front);
        let at = front.len() - ops::last_part(front).len();
        assert(s =~= name.skip(at));
        assert forall|x: int| 0 <= x < s.len() implies s[x] != '/' by {
            if x < s.len() - 1 {
                assert(ops::last_part(front)[x] == s[x]);
                assert(ops::last_part(front).contains(s[x]));
            }
        }
    } else {
        assert(s =~= name.skip(name.len() as int));
    }
}

/// A path keeps an operation out as soon as one thing is changed on disk: its content,
/// its name, its kind, or that it is there at all. What is staged does not.
pub proof fn unstaged_work_is_what_differs_on_disk(s: Status, t: Status)
    requires
        t == (Status { staged: !s.staged, ..s }),
    ensures
        t.unstaged() == s.unstaged(),
        s.wt_modified || s.wt_deleted || s.wt_renamed || s.wt_typechange <==> s.unstaged(),
{
}

/// A head on no branch is refused, and a branch keeps its full name.
pub proof fn a_detached_head_is_refused(head: Option<&str>, r: Result<String, Error>)
    ensures
        call_ensures(ops::head_branch, (head,), r) ==> {
            &&& r is Ok <==> head is Some
            &&& r matches Ok(b) ==> b@ == head->0@
            &&& r matches Err(e) ==> e@ == ErrorV::DetachedHead
        },
{
}

/// The worktree is in the way of a checkout if anything in it was touched, and of a ref
/// move if something was touched beyond the index.
pub proof fn a_dirty_worktree_is_refused(
    statuses: Vec<Status>,
    all: Result<(), Error>,
    beyond: Result<(), Error>,
)
    requires
        call_ensures(ops::require_fully_clean, (&statuses,), all),
        call_ensures(ops::require_clean_unstaged, (&statuses,), beyond),
    ensures
        all is Ok <==> statuses@.len() == 0,
        beyond is Err <==> exists|i: int|
            0 <= i < statuses@.len() && {
                let s = #[trigger] statuses@[i];
                s.wt_modified || s.wt_deleted || s.wt_renamed || s.wt_typechange
            },
        all is Ok ==> beyond is Ok,
        all matches Err(e) ==> e@ == ErrorV::DirtyWorktree,
        beyond matches Err(e) ==> e@ == ErrorV::DirtyWorktree,
{
}

/// A request is made of the branch, its tip and the commit as they were read, and only
/// where all three could be read. One that needs a clean worktree, or something staged,
/// is refused otherwise, and is the same request where it is not.
pub proof fn a_request_is_what_was_read(
    branch: Result<String, Error>,
    head: Result<Oid, Error>,
    rev: Result<Oid, Error>,
    statuses: Result<Vec<Status>, Error>,
    trees: Result<(Oid, Oid), Error>,
    plain: Result<ops::Request, Error>,
    clean: Result<ops::Request, Error>,
    staged: Result<ops::Request, Error>,
)
    requires
        call_ensures(ops::request, (branch, head, rev), plain),
        call_ensures(ops::clean_request, (branch, statuses, head, rev), clean),
        call_ensures(ops::staged_request, (branch, head, rev, trees), staged),
    ensures
        plain is Ok <==> branch is Ok && head is Ok && rev is Ok,
        plain matches Ok(q) ==> q.branch@ == branch->Ok_0@ && q.head == head->Ok_0 && q.rev
            == rev->Ok_0,
        branch matches Err(e) ==> plain matches Err(f) && f@ == e@,
        branch is Ok ==> (head matches Err(e) ==> plain matches Err(f) && f@ == e@),
        branch is Ok && head is Ok ==> (rev matches Err(e) ==> plain matches Err(f) && f@ == e@),
        clean is Ok <==> plain is Ok && statuses is Ok && statuses->Ok_0@.len() == 0,
        clean matches Ok(q) ==> q@ == plain->Ok_0@,
        branch is Ok && statuses is Ok && statuses->Ok_0@.len() > 0 ==> (clean matches Err(e)
            && e@ == ErrorV::DirtyWorktree),
        staged is Ok <==> plain is Ok && trees is Ok && trees->Ok_0.0 != trees->Ok_0.1,
        staged matches Ok(q) ==> q@ == plain->Ok_0@,
        plain is Ok && trees is Ok && trees->Ok_0.0 == trees->Ok_0.1 ==> (staged matches Err(e)
            && e@ == ErrorV::NothingStaged),
{
}

// ── what an operation asks for ──────────────────────────────────────────────

/// The rewrite `o` runs from `base` to `tip` on `branch` with these edits, merges as the
/// user asked, and neither stops early nor touches the index on the side.
pub open spec fn asks_for(
    o: RewriteV,
    branch: Seq<char>,
    base: Option<Oid>,
    tip: Oid,
    recipe: engine::RecipeV,
    opts: Opts,
) -> bool {
    &&& o.branch == branch
    &&& o.base == base
    &&& o.tip == tip
    &&& o.recipe == recipe
    &&& o.how.ignore_ws == opts.ignore_ws
    &&& o.how.favor == opts.favor
    &&& o.dry_run == opts.dry_run
    &&& o.no_restack == opts.no_restack
    &&& o.paths.len() == 0
    &&& !o.lazy
    &&& !o.trial
}

/// Every operation carries out its plan: the plan's edits, between the plan's ends, as the
/// options say. Only a plan with an order of its own changes the order. A commit that
/// comes out empty is left out where commits are taken apart or put together, and kept
/// where one is fixed or reworded.
pub proof fn an_operation_carries_out_its_plan(
    branch: String,
    plan: Plan,
    shaped: Shaped,
    recipe: Recipe,
    base: Option<Oid>,
    c: Oid,
    text: &str,
    yes: bool,
    orphans: usize,
    opts: Opts,
    fixed: Rewrite,
    moved: Rewrite,
    worded: Rewrite,
    absorbed: Rewrite,
    shape: Rewrite,
)
    requires
        call_ensures(ops::fix, (branch, plan, c, yes, &opts), fixed),
        call_ensures(ops::mv, (branch, plan, text, c, &opts), moved),
        call_ensures(ops::reword, (branch, plan, c, &opts), worded),
        call_ensures(ops::absorb, (branch, base, c, recipe, orphans, yes, &opts), absorbed),
        call_ensures(ops::shape, (branch, shaped, text, yes, &opts), shape),
    ensures
        asks_for(fixed.asked(), branch@, plan.base, plan.tip, plan.recipe@, opts),
        asks_for(moved.asked(), branch@, plan.base, plan.tip, plan.recipe@, opts),
        asks_for(worded.asked(), branch@, plan.base, plan.tip, plan.recipe@, opts),
        asks_for(absorbed.asked(), branch@, base, c, recipe@, opts),
        asks_for(shape.asked(), branch@, shaped.base, shaped.tip, shaped.recipe@, opts),
        fixed.asked().order is None && moved.asked().order is None,
        worded.asked().order is None && absorbed.asked().order is None,
        shape.asked().order == Some(shaped.order@),
        !fixed.asked().drop_empty && !worded.asked().drop_empty,
        moved.asked().drop_empty && absorbed.asked().drop_empty && shape.asked().drop_empty,
{
}

/// Only where nothing is left that a checkout would wipe does an operation end in one: a
/// fix where the worktree held nothing beyond the index, an absorb where moreover no piece
/// was left over, a reshaping where that was asked for, a reword never. A move, which
/// wants everything clean, always does.
pub proof fn a_checkout_never_wipes_what_is_left(
    branch: String,
    plan: Plan,
    shaped: Shaped,
    recipe: Recipe,
    base: Option<Oid>,
    c: Oid,
    text: &str,
    yes: bool,
    orphans: usize,
    opts: Opts,
    fixed: Rewrite,
    moved: Rewrite,
    worded: Rewrite,
    absorbed: Rewrite,
    shape: Rewrite,
)
    requires
        call_ensures(ops::fix, (branch, plan, c, yes, &opts), fixed),
        call_ensures(ops::mv, (branch, plan, text, c, &opts), moved),
        call_ensures(ops::reword, (branch, plan, c, &opts), worded),
        call_ensures(ops::absorb, (branch, base, c, recipe, orphans, yes, &opts), absorbed),
        call_ensures(ops::shape, (branch, shaped, text, yes, &opts), shape),
    ensures
        fixed.asked().sync <==> yes,
        moved.asked().sync,
        !worded.asked().sync,
        absorbed.asked().sync <==> yes && orphans == 0,
        shape.asked().sync <==> yes,
{
}

// ── the branch ──────────────────────────────────────────────────────────────

/// A branch that is to stay is not touched. One that moves is moved once, from its old
/// tip to the new one and under the run's message; where a checkout was asked for, that
/// comes first, and nothing else is done.
pub proof fn a_promotion_moves_the_branch_once(p: PromotionV)
    ensures
        ({
            let first = p.start();
            let moved = ActionV::MoveRef {
                name: p.branch,
                to: p.new_tip,
                from: p.old_tip,
                message: p.message,
            };
            if p.new_tip == p.old_tip {
                p.action(first) is None
            } else if p.sync {
                &&& p.action(first) == Some(ActionV::Checkout(p.new_tip))
                &&& p.after(first, EventV::Done) matches Ok(second) && p.action(second) == Some(
                    moved,
                ) && (p.after(second, EventV::Done) matches Ok(last) && p.action(last) is None)
            } else {
                &&& p.action(first) == Some(moved)
                &&& p.after(first, EventV::Done) matches Ok(last) && p.action(last) is None
            }
        }),
{
}

/// Whatever goes wrong with the checkout or the move ends the promotion, with the reason
/// that was given; a ref that was found elsewhere is told from one that could not be
/// written.
pub proof fn a_promotion_that_fails_says_why(p: PromotionV, at: Promoting, e: EventV)
    requires
        p.action(at) is Some,
        !(e is Done),
    ensures
        p.after(at, e) matches Err(f) && {
            &&& e matches EventV::Failed(m) ==> f == ErrorV::Git(m)
            &&& e matches EventV::Refused { now, why } ==> if p.action(at) == Some(
                ActionV::Checkout(p.new_tip),
            ) || now == Some(p.old_tip) {
                f == ErrorV::Git(why)
            } else {
                f is Empty
            }
        },
{
}

// ── the siblings ────────────────────────────────────────────────────────────

/// The siblings of a branch are the other branches and the tags, in the order of the
/// listing; a listing without the branch itself gives none.
pub proof fn the_siblings_are_the_other_branches_and_the_tags(
    refs: Vec<ops::RefInfo>,
    branch: &str,
    r: Result<Vec<ops::RefInfo>, Error>,
)
    requires
        call_ensures(ops::sibling_refs, (refs, branch), r),
    ensures
        r is Ok <==> exists|i: int| 0 <= i < refs@.len() && (#[trigger] refs@[i]).name@ == branch@,
        r matches Ok(v) ==> ops::refs_view(v@) == ops::refs_view(refs@).filter(
            |x: RefV| x.name != branch@ && (x.branch || x.tag),
        ),
{
    let all = ops::refs_view(refs@);
    lemma_others(all, branch@);
    if r is Ok {
        let i = choose|i: int| 0 <= i < all.len() && (#[trigger] all[i]).name == branch@;
        assert(refs@[i].name@ == branch@);
    } else if exists|i: int| 0 <= i < refs@.len() && (#[trigger] refs@[i]).name@ == branch@ {
        let i = choose|i: int| 0 <= i < refs@.len() && (#[trigger] refs@[i]).name@ == branch@;
        assert(all[i].name == branch@);
    }
}

proof fn lemma_others(refs: Seq<RefV>, branch: Seq<char>)
    ensures
        ops::others(refs, branch) == refs.filter(
            |x: RefV| x.name != branch && (x.branch || x.tag),
        ),
    decreases refs.len(),
{
    reveal(Seq::filter);
    if refs.len() > 0 {
        lemma_others(refs.drop_last(), branch);
    }
}

/// What a rewrite does with a sibling. It moves one that is a branch at a rewritten
/// commit, and moves it to the commit that this one became; not where branches were asked
/// to stay, nor where another worktree has it checked out. A tag is never moved. What is
/// at a commit that stayed as it was, or at one outside the range, is left, but a branch
/// outside the range is looked into: it may have forked off inside. Of everything else the
/// user is told, by its short name.
pub proof fn a_sibling_goes_where_its_commit_went(
    r: RefV,
    ids: Seq<Oid>,
    map: Seq<(Oid, Oid)>,
    no_restack: bool,
)
    ensures
        ({
            let f = ops::fate_of(r, ids, map, no_restack);
            let image = engine::image(map, r.target);
            let rewritten = ids.contains(r.target) && image != Some(r.target);
            &&& f is Move <==> rewritten && image is Some && !r.tag && !no_restack && !r.elsewhere
            &&& f matches FateV::Move(to) ==> image == Some(to)
            &&& f is Fork <==> !ids.contains(r.target) && !r.tag
            &&& f is Leave <==> !rewritten && (r.tag || ids.contains(r.target))
            &&& f matches FateV::Warn(w) ==> {
                let short = r.target.spec_short();
                if r.tag {
                    w == "tag "@ + r.short() + " still points at "@ + short
                        + " (kept; a tag names a commit)"@
                } else if no_restack || image is None {
                    w == r.short() + " still points into the rewritten range (now orphaned)"@
                } else {
                    w == r.short() + " is checked out in another worktree; left at "@ + short
                }
            }
        }),
{
}

/// A branch that forked off at a rewritten commit is told of, and only such a one; where
/// the commit has a counterpart, the note says how to rebase the branch from the one onto
/// the other.
pub proof fn a_fork_at_a_rewritten_commit_is_told_of(
    r: RefV,
    base: Option<Oid>,
    ids: Seq<Oid>,
    map: Seq<(Oid, Oid)>,
)
    ensures
        ({
            let note = ops::fork_note(r, base, ids, map);
            &&& note is Some <==> base is Some && ids.contains(base->0) && engine::image(
                map,
                base->0,
            ) != Some(base->0)
            &&& note matches Some(n) ==> {
                let old = base->0.spec_short();
                let told = r.short() + " forked at "@ + old + ", which was rewritten"@;
                match engine::image(map, base->0) {
                    None => n == told,
                    Some(to) => n == told + ("; carry it over with `git rebase --onto "@
                        + to.spec_short() + " "@ + old + " "@ + r.short() + "`"@),
                }
            }
        }),
{
    if let Some(n) = ops::fork_note(r, base, ids, map) {
        let old = base->0.spec_short();
        let told = r.short() + " forked at "@ + old + ", which was rewritten"@;
        if let Some(to) = engine::image(map, base->0) {
            assert(n =~= told + ("; carry it over with `git rebase --onto "@ + to.spec_short()
                + " "@ + old + " "@ + r.short() + "`"@));
        }
    }
}

/// Dealing with a sibling adds at most one line to the report and changes nothing else.
/// It is one of the moved if it was moved, or would be in a dry run; and what could not be
/// moved is warned about, with the reason.
pub proof fn each_sibling_is_reported_once(t: TailV, o: RewriteV, i: int, e: EventV)
    ensures
        ({
            let f = t.fate(o, i);
            let r = t.refs[i];
            let idle = t.action(o, i) is None;
            let u = if idle {
                t.pass(o, i)
            } else {
                t.after(o, i, e)
            };
            &&& u.ids == t.ids && u.replay == t.replay && u.refs == t.refs && u.index == t.index
            &&& if f is Move && (o.dry_run || e is Done) {
                &&& u.warnings == t.warnings
                &&& u.restacked == t.restacked.push(
                    r.short() + " "@ + r.target.spec_short() + " -> "@ + f->Move_0.spec_short(),
                )
            } else {
                &&& u.restacked == t.restacked
                &&& match f {
                    FateV::Warn(w) => u.warnings == t.warnings.push(w),
                    FateV::Leave => u.warnings == t.warnings,
                    FateV::Fork => match e {
                        EventV::Base(b) => match ops::fork_note(r, b, t.ids, t.replay.map) {
                            Some(n) => u.warnings == t.warnings.push(n),
                            None => u.warnings == t.warnings,
                        },
                        _ => u.warnings == t.warnings,
                    },
                    FateV::Move(_) => match e {
                        EventV::Failed(m) => u.warnings == t.warnings.push(
                            r.short() + " could not be restacked: "@ + m,
                        ),
                        EventV::Refused { why, .. } => u.warnings == t.warnings.push(
                            r.short() + " could not be restacked: "@ + why,
                        ),
                        _ => u.warnings.len() == t.warnings.len() + 1,
                    },
                }
            }
        }),
{
}

/// Something is asked for a sibling only where it is moved, or where its fork is looked
/// for: that of the sibling and of the old tip.
pub proof fn what_is_asked_for_a_sibling(t: TailV, o: RewriteV, i: int)
    ensures
        match t.fate(o, i) {
            FateV::Move(to) => if o.dry_run {
                t.action(o, i) is None
            } else {
                t.action(o, i) matches Some(ActionV::MoveRef { name, to: goal, from, message })
                    && name == t.refs[i].name && goal == to && from == t.refs[i].target && message
                    == o.message + " [restack "@ + o.tip.spec_short() + ".."@
                    + t.replay.tip.spec_short() + "]"@
            },
            FateV::Fork => t.action(o, i) == Some(
                ActionV::MergeBase { one: t.refs[i].target, two: o.tip },
            ),
            _ => t.action(o, i) is None,
        },
{
}

// ── the run ─────────────────────────────────────────────────────────────────

/// Once the refs are listed, a run moves the branch (as
/// [`a_promotion_moves_the_branch_once`] says), lets the index entries of the paths it was
/// given follow the new tip, and deals with every sibling from the first on. A dry run
/// goes to the siblings at once. Every stage works from the same replay.
pub proof fn a_run_promotes_and_restacks(
    o: RewriteV,
    ids: Seq<Oid>,
    replay: ReplayV,
    refs: Seq<RefV>,
)
    requires
        ops::listed(refs, o.branch),
    ensures
        ({
            let t = TailV {
                ids,
                replay,
                refs: ops::others(refs, o.branch),
                restacked: seq![],
                warnings: seq![],
                index: None,
            };
            let p = PromotionV {
                branch: o.branch,
                new_tip: replay.tip,
                old_tip: o.tip,
                message: o.message,
                sync: o.sync,
            };
            let listed = rewrite::next_stage(
                o,
                StageV::Listing { ids, replay },
                EventV::Refs(refs),
            );
            let indexing = StageV::Indexing { tail: t };
            let restacking = StageV::Restacking { tail: t, i: 0 };
            let done = if o.paths.len() > 0 {
                indexing
            } else {
                restacking
            };
            &&& listed == Ok::<StageV, ErrorV>(
                if o.dry_run {
                    restacking
                } else if replay.tip == o.tip {
                    done
                } else {
                    StageV::Promoting { tail: t, at: p.start() }
                },
            )
            &&& forall|at: Promoting|
                (#[trigger] StageV::Promoting { tail: t, at }.action(o)) == p.action(at)
            &&& rewrite::next_stage(
                o,
                StageV::Promoting { tail: t, at: Promoting::Move },
                EventV::Done,
            ) == Ok::<StageV, ErrorV>(done)
            &&& indexing.action(o) == Some(
                ActionV::RefreshIndex { tip: replay.tip, paths: o.paths },
            )
            &&& rewrite::next_stage(o, indexing, EventV::Done) == Ok::<StageV, ErrorV>(restacking)
        }),
{
    let t = rewrite::tail_of(ids, replay, ops::others(refs, o.branch));
    assert(t.restacked =~= seq![]);
    assert(t.warnings =~= seq![]);
}

/// An index that could not be refreshed ends nothing: the siblings are dealt with all the
/// same, and the reason is kept.
pub proof fn a_stale_index_stops_nothing(o: RewriteV, t: TailV, m: Seq<char>)
    ensures
        rewrite::next_stage(o, StageV::Indexing { tail: t }, EventV::Failed(m)) == Ok::<
            StageV,
            ErrorV,
        >(StageV::Restacking { tail: TailV { index: Some(m), ..t }, i: 0 }),
{
}

/// The outcome names the branch, both tips, what was carried along and what was left out;
/// lost signatures are one warning more, with their number, unless the run was quiet.
pub proof fn the_outcome_says_what_was_done(t: TailV, o: RewriteV)
    ensures
        ({
            let r = t.outcome(o);
            &&& r.branch == o.branch && r.old_tip == o.tip && r.new_tip == t.replay.tip
            &&& r.restacked == t.restacked && r.dropped == t.replay.dropped
            &&& if o.lazy || t.replay.unsigned.len() == 0 {
                r.warnings == t.warnings
            } else {
                &&& r.warnings.len() == t.warnings.len() + 1
                &&& r.warnings.drop_last() == t.warnings
                &&& r.warnings.last() == crate::text::decimal_of(t.replay.unsigned.len())
                    + " GPG signature(s) dropped — re-sign with `git rebase --exec 'git commit --amend --no-edit -S'`"@
            }
        }),
{
    if !o.lazy && t.replay.unsigned.len() > 0 {
        assert(t.outcome(o).warnings.drop_last() =~= t.warnings);
    }
}

/// A rewrite replays what it was asked for: its own range, in the order that was asked for
/// or as it stands, with the edits, the merge rule and the way with empty commits that were
/// asked for.
pub proof fn a_rewrite_replays_what_was_asked_for(k: Known, o: RewriteV, ids: Seq<Oid>, r: ReplayV)
    requires
        o.yields(k, ids, r),
    ensures
        exists|s: StackV| #[trigger]
            git::is_linear(k, o.base, o.tip, s) && ids.len() == s.rows.len() && forall|i: int|
                0 <= i < ids.len() ==> #[trigger] ids[i] == s.rows[i].0,
        ({
            let j = o.job(ids);
            &&& j.base == o.base && j.tip == o.tip && j.ids == ids
            &&& o.order matches Some(v) ==> j.order == v
            &&& o.order is None ==> j.order == ids
            &&& j.recipe == o.recipe && j.how == o.how && j.drop_empty == o.drop_empty
            &&& engine::replay_in(k, j) == AskV::Have(r)
        }),
        forall|e: ErrorV| !(#[trigger] o.breaks(k, e)),
{
    let s = choose|s: StackV| #[trigger]
        git::is_linear(k, o.base, o.tip, s) && s.ids() == ids && engine::replay_in(k, o.job(ids))
            == AskV::Have(r);
    assert(git::is_linear(k, o.base, o.tip, s));
    assert forall|e: ErrorV| !(#[trigger] o.breaks(k, e)) by {
        if git::not_linear(k, o.base, git::Reach::Base, o.tip, e) {
            git::a_walk_that_fails_says_why(k, o.base, o.tip, e);
        } else if o.breaks(k, e) {
            let t = choose|t: StackV| #[trigger]
                git::is_linear(k, o.base, o.tip, t) && engine::replay_in(k, o.job(t.ids()))
                    == AskV::<ReplayV>::Fail(e);
            git::a_linear_run_is_unique(k, o.base, o.tip, s, t);
        }
    }
}

/// A rewrite that comes out of its replay lists the refs next; only a trial, and a quiet run
/// that changed nothing, is over with it. It then reports the replay, and no ref was looked
/// at. Whatever fails by then failed in the replay.
pub proof fn a_trial_is_over_with_its_replay(
    o: RewriteV,
    step: Step,
    after: StageV,
    same: spec_fn(Known) -> bool,
)
    requires
        rewrite::works_out(o, step, after, same),
    ensures
        step matches Step::Act(a) ==> a@ == ActionV::ListRefs && !o.trial && (
        after matches StageV::Listing { ids, replay } && (o.lazy ==> replay.tip != o.tip)),
        step matches Step::Done(out, index) ==> {
            &&& index is None && after == StageV::Over
            &&& out@.branch == o.branch && out@.old_tip == o.tip
            &&& out@.restacked.len() == 0
            &&& o.trial || (o.lazy && out@.new_tip == o.tip)
            &&& o.lazy ==> out@.warnings.len() == 0
        },
        step matches Step::Fail(f) ==> f.replaying && after == StageV::Over,
        step is Look ==> after == StageV::Working,
{
}

// ── the undo ────────────────────────────────────────────────────────────────

/// The tool's own entries are those whose message begins with its name; they are listed in
/// the order of the log, and the first is the one that an undo walks back.
pub proof fn the_history_is_the_tools_own_entries(log: Seq<LogV>)
    ensures
        undo::own_entries(log) == log.filter(
            |l: LogV|
                l.message.len() >= 12 && l.message[0] == 't' && l.message[1] == 'r' && l.message[2]
                    == 'a' && l.message[3] == 'n' && l.message[4] == 's' && l.message[5] == 'p'
                    && l.message[6] == 'l' && l.message[7] == 'a' && l.message[8] == 'n'
                    && l.message[9] == 't' && l.message[10] == ':' && l.message[11] == ' ',
        ),
        undo::newest(log) matches Some(e) ==> exists|x: int|
            {
                &&& 0 <= x < log.len()
                &&& #[trigger] log[x] == e
                &&& undo::ours(e.message)
                &&& forall|y: int| 0 <= y < x ==> !undo::ours((#[trigger] log[y]).message)
            },
        undo::newest(log) is None ==> forall|y: int|
            0 <= y < log.len() ==> !undo::ours((#[trigger] log[y]).message),
    decreases log.len(),
{
    reveal(Seq::filter);
    if log.len() > 0 {
        let front = log.drop_last();
        let l = log.last();
        the_history_is_the_tools_own_entries(front);
        lemma_mark(l.message);
        let z = log.len() - 1;
        if let Some(e) = undo::newest(front) {
            let x = choose|x: int|
                {
                    &&& 0 <= x < front.len()
                    &&& #[trigger] front[x] == e
                    &&& undo::ours(e.message)
                    &&& forall|y: int| 0 <= y < x ==> !undo::ours((#[trigger] front[y]).message)
                };
            assert(log[x] == e);
            assert forall|y: int| 0 <= y < x implies !undo::ours((#[trigger] log[y]).message) by {
                assert(front[y] == log[y]);
            }
        } else {
            assert forall|y: int| 0 <= y < z implies !undo::ours((#[trigger] log[y]).message) by {
                assert(front[y] == log[y]);
            }
            if undo::ours(l.message) {
                assert(log[z] == l);
            }
        }
    } else {
        assert(undo::own_entries(log) =~= log);
    }
}

proof fn lemma_mark(m: Seq<char>)
    ensures
        undo::ours(m) <==> m.len() >= 12 && m[0] == 't' && m[1] == 'r' && m[2] == 'a' && m[3]
            == 'n' && m[4] == 's' && m[5] == 'p' && m[6] == 'l' && m[7] == 'a' && m[8] == 'n'
            && m[9] == 't' && m[10] == ':' && m[11] == ' ',
{
    let mark = "transplant: "@;
    reveal_strlit("transplant: ");
    if m.len() >= 12 {
        let head = m.subrange(0, 12);
        if head == mark {
            assert(head[0] == mark[0] && head[1] == mark[1] && head[2] == mark[2]);
            assert(head[3] == mark[3] && head[4] == mark[4] && head[5] == mark[5]);
            assert(head[6] == mark[6] && head[7] == mark[7] && head[8] == mark[8]);
            assert(head[9] == mark[9] && head[10] == mark[10] && head[11] == mark[11]);
        }
        if m[0] == 't' && m[1] == 'r' && m[2] == 'a' && m[3] == 'n' && m[4] == 's' && m[5] == 'p'
            && m[6] == 'l' && m[7] == 'a' && m[8] == 'n' && m[9] == 't' && m[10] == ':' && m[11]
            == ' ' {
            undo::lemma_ours(m);
        }
    }
}

/// A sibling that a run carried along, and to which nothing has happened since, goes back
/// to where it was when the run is walked back. One that was moved again, that the run did
/// not move, or that is no branch stays.
pub proof fn an_undo_takes_siblings_back(t: TailV, o: RewriteV, i: int, r: RefV)
    requires
        t.action(o, i) is Some,
        t.action(o, i)->0 is MoveRef,
        r.branch,
        r.log == Some(
            LogV {
                old: t.action(o, i)->0->from,
                new: t.action(o, i)->0->MoveRef_to,
                message: t.action(o, i)->0->MoveRef_message,
            },
        ),
    ensures
        ({
            let run = LogV { old: o.tip, new: t.replay.tip, message: o.message };
            &&& r.target == t.action(o, i)->0->MoveRef_to ==> undo::goes_back(r, run) == Some(
                t.refs[i].target,
            )
            &&& r.target != t.action(o, i)->0->MoveRef_to ==> undo::goes_back(r, run) is None
            &&& undo::goes_back(RefV { branch: false, ..r }, run) is None
            &&& undo::goes_back(RefV { log: None, ..r }, run) is None
            &&& forall|e: LogV| #[trigger]
                undo::goes_back(r, e) is Some ==> e.message + " [restack "@ + e.old.spec_short()
                    + ".."@ + e.new.spec_short() + "]"@ == r.log->0.message
        }),
{
}

/// An undo is refused where the tool has done nothing to the branch, and where the branch
/// is not where the newest of its runs has put it. Otherwise that run is walked back.
pub proof fn an_undo_walks_back_the_newest_run(
    branch: &str,
    log: Vec<LogEntry>,
    current: Oid,
    dry_run: bool,
    r: Result<Undo, Error>,
)
    requires
        call_ensures(undo::undo, (branch, log, current, dry_run), r),
    ensures
        r is Ok <==> exists|x: int|
            {
                &&& 0 <= x < log@.len()
                &&& undo::ours((#[trigger] log@[x]).message@)
                &&& log@[x].new == current
                &&& forall|y: int| 0 <= y < x ==> !undo::ours((#[trigger] log@[y]).message@)
            },
        r matches Ok(u) ==> {
            let w = u.what();
            &&& w.branch == branch@
            &&& w.dry_run == dry_run
            &&& w.entry.new == current
            &&& exists|x: int|
                {
                    &&& 0 <= x < log@.len()
                    &&& (#[trigger] log@[x])@ == w.entry
                    &&& undo::ours(log@[x].message@)
                    &&& forall|y: int| 0 <= y < x ==> !undo::ours((#[trigger] log@[y]).message@)
                }
        },
        r matches Err(e) ==> e@ is Empty,
{
    let all = undo::log_view(log@);
    the_history_is_the_tools_own_entries(all);
    if let Some(e) = undo::newest(all) {
        let x = choose|x: int|
            {
                &&& 0 <= x < all.len()
                &&& #[trigger] all[x] == e
                &&& undo::ours(e.message)
                &&& forall|y: int| 0 <= y < x ==> !undo::ours((#[trigger] all[y]).message)
            };
        assert(log@[x]@ == e);
        assert forall|y: int| 0 <= y < x implies !undo::ours((#[trigger] log@[y]).message@) by {
            assert(all[y].message == log@[y].message@);
        }
        if exists|x: int|
            {
                &&& 0 <= x < log@.len()
                &&& undo::ours((#[trigger] log@[x]).message@)
                &&& log@[x].new == current
                &&& forall|y: int| 0 <= y < x ==> !undo::ours((#[trigger] log@[y]).message@)
            } {
            let z = choose|x: int|
                {
                    &&& 0 <= x < log@.len()
                    &&& undo::ours((#[trigger] log@[x]).message@)
                    &&& log@[x].new == current
                    &&& forall|y: int| 0 <= y < x ==> !undo::ours((#[trigger] log@[y]).message@)
                };
            assert(all[z].message == log@[z].message@);
            assert(z == x);
        }
    } else {
        assert forall|y: int| 0 <= y < log@.len() implies !undo::ours(
            (#[trigger] log@[y]).message@,
        ) by {
            assert(all[y].message == log@[y].message@);
        }
    }
}

/// An undo moves the branch from where the run has put it to where the run found it, and
/// checks nothing out; a dry one moves nothing. Then it deals with the siblings, from the
/// first on.
pub proof fn an_undo_promotes_and_takes_back(u: UndoV, refs: Seq<RefV>)
    requires
        ops::listed(refs, u.branch),
    ensures
        ({
            let b = BackV {
                refs: ops::others(refs, u.branch),
                restacked: seq![],
                warnings: seq![],
            };
            let siblings = UndoStageV::Restacking { back: b, i: 0 };
            let moving = UndoStageV::Promoting { back: b, at: Promoting::Move };
            &&& UndoStageV::Listing.action(u) == Some(ActionV::ListRefs)
            &&& undo::next_stage(u, UndoStageV::Listing, EventV::Refs(refs)) == Ok::<
                UndoStageV,
                ErrorV,
            >(
                if u.dry_run || u.entry.old == u.entry.new {
                    siblings
                } else {
                    moving
                },
            )
            &&& moving.action(u) == Some(
                ActionV::MoveRef {
                    name: u.branch,
                    to: u.entry.old,
                    from: u.entry.new,
                    message: "transplant: undo ("@ + u.entry.message + ")"@,
                },
            )
            &&& undo::next_stage(u, moving, EventV::Done) == Ok::<UndoStageV, ErrorV>(siblings)
        }),
{
    assert(Seq::<Seq<char>>::empty() =~= seq![]);
}

/// An undo moves a sibling back only from where it is and to where the run found it, and
/// not one that another worktree has checked out. It adds at most one line to the report:
/// a move, or a warning.
pub proof fn each_sibling_is_taken_back_once(b: BackV, u: UndoV, i: int, e: EventV)
    ensures
        ({
            let r = b.refs[i];
            let to = undo::goes_back(r, u.entry);
            let c = if b.action(u, i) is None {
                b.pass(u, i)
            } else {
                b.after(u, i, e)
            };
            &&& b.action(u, i) is Some <==> to is Some && !u.dry_run && !r.elsewhere
            &&& b.action(u, i) matches Some(a) ==> (a matches ActionV::MoveRef {
                name,
                to: goal,
                from,
                message,
            } && name == r.name && Some(goal) == to && from == r.target && message
                == "transplant: undo ("@ + u.entry.message + ")"@ + " [restack "@
                + u.entry.new.spec_short() + ".."@ + u.entry.old.spec_short() + "]"@)
            &&& c.refs == b.refs
            &&& if to is None {
                c == b
            } else if r.elsewhere {
                &&& c.restacked == b.restacked
                &&& c.warnings == b.warnings.push(
                    r.short() + " is checked out in another worktree; left at "@
                        + r.target.spec_short(),
                )
            } else if u.dry_run || e is Done {
                &&& c.warnings == b.warnings
                &&& c.restacked == b.restacked.push(
                    r.short() + " "@ + r.target.spec_short() + " -> "@ + to->0.spec_short(),
                )
            } else {
                &&& c.restacked == b.restacked
                &&& c.warnings.len() == b.warnings.len() + 1
                &&& c.warnings.drop_last() == b.warnings
                &&& e matches EventV::Failed(m) ==> c.warnings.last() == r.short()
                    + " could not be restacked: "@ + m
            }
        }),
{
    if b.action(u, i) is Some {
        let c = b.after(u, i, e);
        if !(e is Done) {
            assert(c.warnings.drop_last() =~= b.warnings);
        }
    }
}

/// The outcome of an undo is that of a move from where the run has put the branch to where
/// it found it; no commit is lost.
pub proof fn the_outcome_of_an_undo(b: BackV, u: UndoV)
    ensures
        ({
            let o = b.outcome(u);
            &&& o.branch == u.branch && o.old_tip == u.entry.new && o.new_tip == u.entry.old
            &&& o.restacked == b.restacked && o.warnings == b.warnings && o.dropped.len() == 0
        }),
{
}

} // verus!
