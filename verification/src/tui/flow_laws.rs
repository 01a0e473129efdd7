//! What Enter and the preview do with what is on the screen.

use crate::engine::RecipeV;
use crate::git::StackV;
use crate::oid::Oid;
use crate::ops::RequestV;
use crate::recipe;
use crate::recipe::{PlanV, ShapedV};
use crate::rewrite::{OutcomeV, RewriteV};
use crate::store::CommitV;
use crate::text;
use crate::tui;
use crate::tui::flow;
use crate::tui::flow::{Goal, JobV, NewsV, NextV, WantV};
use crate::tui::labels;
use crate::tui::plan::WeavingV;
use crate::tui::routes;
use crate::tui::{AppV, Ask, FileV, PromptV, RowV, ShapeV, Source};
use crate::ErrorV;
use vstd::prelude::*;

verus! {

// ── what begins ─────────────────────────────────────────────────────────────

/// The screen differs from the other in what it says, whether an apply is armed, and the
/// prompt.
pub open spec fn same_but_for_answers(a: AppV, b: AppV) -> bool {
    b == (AppV { status: b.status, pending_apply: b.pending_apply, input: b.input, ..a })
}

/// Nothing is begun, and nothing but words comes of it.
pub open spec fn does_nothing(s: AppV, n: NextV) -> bool {
    &&& n.job == JobV::Idle
    &&& n.want == WantV::Nothing
    &&& same_but_for_answers(s, n.app)
    &&& n.app.input == s.input
}

/// A pending shape edit is what Enter and the preview are about: the preview tries it, the
/// first Enter reports its scope, and the second applies it, all on the stack that is shown.
pub proof fn a_shape_edit_goes_first(s: AppV)
    requires
        s.shape != ShapeV::Unchanged,
    ensures
        s.previewed().job == JobV::Shape(Goal::Try),
        s.executed().job == if s.pending_apply {
            JobV::Shape(Goal::Apply)
        } else {
            JobV::Shape(Goal::Arm)
        },
        s.previewed().want == (WantV::Stack { base: s.base, head: s.head }),
        s.executed().want == (WantV::Stack { base: s.base, head: s.head }),
        s.previewed().app == s && s.executed().app == s,
{
}

/// In the file list the file under the cursor goes to the commit it was sent to, and
/// nothing happens without both. The second Enter asks for a clean worktree.
pub proof fn a_file_goes_where_it_was_sent(s: AppV)
    requires
        s.shape == ShapeV::Unchanged,
        s.source == Source::Files,
    ensures
        ({
            let files = s.visible_files();
            let ready = s.move_cursor < files.len() && s.move_target is Some;
            let path = files[s.move_cursor as int];
            let target = s.move_target->0;
            let (p, x) = (s.previewed(), s.executed());
            &&& !ready ==> does_nothing(s, p) && does_nothing(s, x)
            &&& ready ==> {
                &&& p.job == (JobV::Move { goal: Goal::Try, path, target })
                &&& p.want == WantV::Status
                &&& s.pending_apply ==> {
                    &&& x.job == (JobV::Move { goal: Goal::Apply, path, target })
                    &&& x.want == (WantV::Request { rev: target, clean: true })
                    &&& !x.app.pending_apply
                }
                &&& !s.pending_apply ==> {
                    &&& x.job == (JobV::Move { goal: Goal::Arm, path, target })
                    &&& x.want == WantV::Status
                }
            }
        }),
{
}

/// A picked hunk goes to a commit that exists.
pub open spec fn sends_elsewhere(s: AppV) -> bool {
    exists|i: int|
        0 <= i < tui::routes_of(s.files).len() && !routes::is_new(
            #[trigger] tui::routes_of(s.files)[i],
        )
}

/// Where a picked hunk goes to a new commit, all of them have to: otherwise nothing happens.
/// The preview makes the new commit and tries it: on top of the source's base where it is
/// split off a commit, and on top of the tip where it is new work. Enter asks for its
/// message, and applies nothing yet.
pub proof fn a_new_commit_takes_all_or_nothing(s: AppV)
    requires
        s.shape == ShapeV::Unchanged,
        s.source != Source::Files,
        s.splits(),
    ensures
        ({
            let (p, x) = (s.previewed(), s.executed());
            &&& sends_elsewhere(s) ==> does_nothing(s, p) && does_nothing(s, x)
            &&& !sends_elsewhere(s) ==> {
                &&& x.job == JobV::Idle && x.want == WantV::Nothing
                &&& same_but_for_answers(s, x.app)
                &&& x.app.input matches Some(q) && match s.source {
                    Source::Commit(src) => q.what == Ask::Split(src) && q.text == s.summary_of(src)
                        + " (part 1)"@,
                    _ => q.what == Ask::NewCommit && q.text.len() == 0,
                }
                &&& s.parts().len() > 0 ==> match s.source {
                    Source::Commit(src) => {
                        &&& p.job == (JobV::Split { goal: Goal::Try, named: src, rev: src })
                        &&& p.want matches WantV::Weave(w) && w.parent == s.source_base && w.parts
                            == s.parts()
                    },
                    _ => {
                        &&& p.job == JobV::Tip(Goal::Try)
                        &&& p.want matches WantV::Weave(w) && w.parent == s.head && w.parts
                            == s.parts()
                    },
                }
            }
        }),
{
}

/// Otherwise the picked hunks are folded: every change on its way, carried by commits on top
/// of the source's base. The preview tries it, the first Enter reports its scope, and the
/// second applies it. Where nothing is on its way, nothing happens.
pub proof fn picked_hunks_are_folded(s: AppV)
    requires
        s.shape == ShapeV::Unchanged,
        s.source != Source::Files,
        !s.splits(),
    ensures
        ({
            let (p, x) = (s.previewed(), s.executed());
            let recipe = WantV::Recipe { source: s.source_base, folds: s.folds() };
            &&& s.folds().len() == 0 ==> does_nothing(s, p)
            &&& s.folds().len() > 0 ==> p.job == JobV::Fold(Goal::Try) && p.want == recipe
            &&& s.pending_apply && s.folds().len() == 0 ==> does_nothing(s, x)
            &&& s.pending_apply && s.folds().len() > 0 ==> x.job == JobV::Fold(Goal::Apply)
                && x.want == recipe && !x.app.pending_apply
            &&& !s.pending_apply && s.rewrite_span() > 0 ==> x.job == JobV::Fold(Goal::Arm)
                && x.want == recipe && x.app.pending_apply
            &&& !s.pending_apply && s.rewrite_span() == 0 ==> does_nothing(s, x)
        }),
{
}

/// What was typed is used without the white space around it, and an empty text does nothing.
/// It rewords the commit that it was asked for, names the commit that is split off, or the
/// new one at the tip; each of these has the hunks that go to it.
pub proof fn a_prompt_does_what_it_asked_for(s: AppV, p: PromptV)
    requires
        s.input == Some(p),
    ensures
        ({
            let n = s.submitted();
            let t = text::trimmed(p.text);
            &&& n.app == (AppV { input: None, status: n.app.status, ..s })
            &&& t.len() == 0 ==> n.job == JobV::Idle && n.want == WantV::Nothing
            &&& t.len() > 0 ==> match p.what {
                Ask::Reword(rev) => {
                    &&& n.job == (JobV::Reword { rev, text: t })
                    &&& n.want == (WantV::Request { rev, clean: false })
                },
                Ask::Filter => n.job == JobV::Idle && n.want == WantV::Nothing,
                Ask::NewCommit => if n.app.parts().len() == 0 {
                    n.job == JobV::Idle && n.want == WantV::Nothing
                } else {
                    &&& n.job == JobV::Tip(Goal::Apply)
                    &&& n.want == WantV::Weave(
                        WeavingV { parent: s.head, parts: n.app.parts(), message: t },
                    )
                },
                Ask::Split(named) => match s.source {
                    Source::Commit(rev) if n.app.parts().len() > 0 => {
                        &&& n.job == (JobV::Split { goal: Goal::Apply, named, rev })
                        &&& n.want == WantV::Weave(
                            WeavingV { parent: s.source_base, parts: n.app.parts(), message: t },
                        )
                    },
                    _ => n.job == JobV::Idle && n.want == WantV::Nothing,
                },
            }
        }),
{
    let n = s.submitted();
    let bare = AppV { input: None, ..s };
    lemma_same_parts(bare, n.app, s.files.len() as int);
}

proof fn lemma_same_parts(a: AppV, b: AppV, n: int)
    requires
        a.files == b.files,
        0 <= n <= a.files.len(),
    ensures
        a.parts_in(n) == b.parts_in(n),
    decreases n,
{
    if n > 0 {
        lemma_same_parts(a, b, n - 1);
    }
}

// ── what the rewrite is ─────────────────────────────────────────────────────

/// The list is read from its last row to its first for the order to replay: oldest first.
pub proof fn the_list_is_replayed_from_below(s: AppV)
    ensures
        s.commit_order().len() == s.commits.len(),
        forall|i: int, j: int|
            0 <= i && i + j == s.commits.len() - 1 && 0 <= j ==> #[trigger] s.commit_order()[i] == (
            #[trigger] s.commits[j]).oid,
{
}

/// A shape edit is planned as it is marked: the commit to be dropped is dropped, the one to
/// be squashed is squashed into its parent under both messages, and a reorder gives the
/// order that the list shows. Without a mark, or with nothing to reorder, it is refused.
pub proof fn a_shape_edit_is_planned_as_marked(s: AppV, stack: StackV, c: Oid)
    ensures
        s.shape == ShapeV::Drop(c) ==> s.shape_plan(stack) == recipe::dropped_of(stack, s.head, c),
        s.shape == ShapeV::Squash(c) ==> s.shape_plan(stack) == recipe::squashed_of(
            stack,
            s.head,
            c,
            None,
        ),
        s.shape is Reorder && stack.rows.len() > 0 ==> s.shape_plan(stack) == recipe::shaped_of(
            stack,
            s.head,
            s.commit_order(),
            RecipeV::empty(),
            None,
        ),
        s.shape is Reorder && stack.rows.len() == 0 ==> s.shape_plan(stack) is Err,
        s.shape is Unchanged ==> s.shape_plan(stack) is Err,
{
}

/// The rewrite runs on the branch between these ends with these edits, in this order, as the
/// options say but for the dry run. It checks nothing out, so that what was not picked stays
/// where it is.
pub open spec fn asks(
    s: AppV,
    o: RewriteV,
    branch: Seq<char>,
    base: Option<Oid>,
    tip: Oid,
    order: Option<Seq<Oid>>,
    recipe: RecipeV,
) -> bool {
    &&& o.branch == branch
    &&& o.base == base
    &&& o.tip == tip
    &&& o.order == order
    &&& o.recipe == recipe
    &&& o.how.ignore_ws == s.opts.ignore_ws
    &&& o.how.favor == s.opts.favor
    &&& o.no_restack == s.opts.no_restack
}

/// A shape edit that is planned is run on the branch that HEAD is on, dry unless it is
/// applied, and checks nothing out. One that cannot be planned changes nothing, and one that
/// is only armed goes no further.
pub proof fn a_shape_edit_runs_its_plan(
    s: AppV,
    goal: Goal,
    stack: StackV,
    p: ShapedV,
    branch: Seq<char>,
)
    requires
        s.shape_plan(stack) == Ok::<ShapedV, ErrorV>(p),
    ensures
        ({
            let n = s.went_on(JobV::Shape(goal), NewsV::Stack(Ok(stack)));
            &&& goal == Goal::Arm ==> n.job == JobV::Idle && n.want == WantV::Nothing
                && n.app.pending_apply
            &&& goal != Goal::Arm ==> n.job == JobV::ShapeFrom(goal, p) && n.want == WantV::Branch
        }),
        ({
            let n = s.went_on(JobV::ShapeFrom(goal, p), NewsV::Branch(Ok(branch)));
            &&& n.job == JobV::Shape(goal)
            &&& n.want matches WantV::Rewrite(o) && asks(
                s,
                o,
                branch,
                p.base,
                p.tip,
                Some(p.order),
                p.recipe,
            ) && o.drop_empty && !o.sync && !o.trial && !o.lazy && o.paths.len() == 0 && o.dry_run
                == (goal != Goal::Apply || s.opts.dry_run)
        }),
{
    reveal(AppV::shaping);
    reveal(AppV::shaping_from);
}

/// A shape edit that cannot be planned, and a rewrite that fails, leave everything as it is
/// and are told of.
pub proof fn a_shape_edit_that_fails_changes_nothing(
    s: AppV,
    goal: Goal,
    stack: StackV,
    e: ErrorV,
    replaying: bool,
)
    ensures
        s.shape_plan(stack) == Err::<ShapedV, ErrorV>(e) ==> does_nothing(
            s,
            s.went_on(JobV::Shape(goal), NewsV::Stack(Ok(stack))),
        ),
        does_nothing(s, s.went_on(JobV::Shape(goal), NewsV::Stack(Err(e)))),
        does_nothing(s, s.went_on(JobV::Shape(goal), NewsV::Outcome(Err((replaying, e))))),
        does_nothing(s, s.went_on(JobV::Fold(goal), NewsV::Outcome(Err((replaying, e))))),
{
    reveal(AppV::shaping);
    reveal(AppV::folding);
}

/// A rewrite is taken for applied only where it was to be applied and went through; one of
/// folded hunks moreover only where the tip moved.
pub proof fn only_an_apply_is_applied(s: AppV, goal: Goal, o: OutcomeV, index: Option<Seq<char>>)
    requires
        !s.applied,
    ensures
        s.went_on(JobV::Shape(goal), NewsV::Outcome(Ok((o, index)))).app.applied <==> goal
            == Goal::Apply,
        s.went_on(JobV::Fold(goal), NewsV::Outcome(Ok((o, index)))).app.applied <==> goal
            == Goal::Apply && o.new_tip != s.head,
{
    reveal(AppV::shaping);
    reveal(AppV::folding);
}

/// Folded hunks are replayed from below the oldest commit that they touch up to the tip, with
/// the recipe that carries them. Unless it is applied the replay is a trial. What came from
/// the worktree is in history afterwards, so the index follows for the picked paths, and for
/// no others.
pub proof fn a_fold_runs_its_recipe(s: AppV, goal: Goal, r: RecipeV, c: CommitV)
    ensures
        ({
            let n = s.went_on(JobV::Fold(goal), NewsV::Recipe(Ok(r)));
            match s.oldest_touched() {
                Some(i) => n.job == JobV::FoldFrom(goal, r) && n.want == WantV::Commit(
                    s.commits[i].oid,
                ),
                None => n.job == JobV::Fold(goal) && n.want is Rewrite,
            }
        }),
        ({
            let n = s.went_on(JobV::FoldFrom(goal, r), NewsV::Commit(Some(c)));
            let base = if c.parents.len() == 0 {
                None
            } else {
                Some(c.parents[0])
            };
            &&& n.job == JobV::Fold(goal)
            &&& n.app == s
            &&& n.want matches WantV::Rewrite(o) && asks(
                s,
                o,
                s.branch,
                base,
                s.head,
                None,
                r,
            ) && o.drop_empty && !o.sync && o.trial == (goal != Goal::Apply) && o.paths == if goal
                == Goal::Apply && s.source == Source::Unstaged {
                s.picked_paths()
            } else {
                Seq::empty()
            }
        }),
{
    reveal(AppV::folding);
    reveal(AppV::folding_from);
}

/// A commit that is split off goes right before the one it is taken from: that is planned on
/// the stack shown, and run on the branch that HEAD is on, dry unless it is applied.
pub proof fn a_split_runs_its_plan(
    s: AppV,
    goal: Goal,
    named: Oid,
    rev: Oid,
    first: Oid,
    stack: StackV,
    p: ShapedV,
    branch: Seq<char>,
)
    requires
        recipe::split_of(stack, s.head, rev, first) == Ok::<ShapedV, ErrorV>(p),
    ensures
        s.went_on(JobV::Split { goal, named, rev }, NewsV::Woven(Ok(first))) == (NextV {
            app: s,
            job: JobV::SplitAt { goal, named, rev, first },
            want: WantV::Stack { base: s.base, head: s.head },
        }),
        s.went_on(JobV::SplitAt { goal, named, rev, first }, NewsV::Stack(Ok(stack))) == (NextV {
            app: s,
            job: JobV::SplitFrom { goal, named, rev, first, plan: p },
            want: WantV::Branch,
        }),
        ({
            let n = s.went_on(
                JobV::SplitFrom { goal, named, rev, first, plan: p },
                NewsV::Branch(Ok(branch)),
            );
            &&& n.app == s
            &&& n.want matches WantV::Rewrite(o) && asks(
                s,
                o,
                branch,
                p.base,
                p.tip,
                Some(p.order),
                p.recipe,
            ) && o.drop_empty && !o.sync && o.dry_run == (goal != Goal::Apply || s.opts.dry_run)
        }),
{
    reveal(AppV::splitting);
    reveal(AppV::splitting_at);
    reveal(AppV::splitting_from);
}

/// A new commit at the tip is promoted only where it is applied: the branch goes from its tip
/// to the new commit, and nothing is checked out. What came from the worktree is in the index
/// afterwards, and what was staged stays.
pub proof fn a_commit_at_the_tip_is_promoted(s: AppV, goal: Goal, tip: Oid)
    ensures
        ({
            let n = s.went_on(JobV::Tip(goal), NewsV::Woven(Ok(tip)));
            &&& goal != Goal::Apply ==> does_nothing(s, n)
            &&& goal == Goal::Apply ==> n.app == s && n.job == JobV::TipAt(tip) && (
            n.want matches WantV::Promote(p) && p.branch == s.branch && p.new_tip == tip
                && p.old_tip == s.head && !p.sync)
        }),
        ({
            let n = s.went_on(JobV::TipAt(tip), NewsV::Promoted(Ok(())));
            &&& s.source == Source::Unstaged ==> n.job == JobV::TipAt(tip) && n.want
                == (WantV::Refresh { tip, paths: s.picked_paths() })
            &&& s.source != Source::Unstaged ==> n.job == JobV::Idle && n.want is Reload
        }),
{
    reveal(AppV::tipping);
    reveal(AppV::tipping_at);
}

/// A file's move is planned for the commit it was sent to. What is previewed and armed is on
/// the stack that is shown, and needs a clean worktree as the apply does; what is applied is
/// on the branch that HEAD is on then.
pub proof fn a_file_move_runs_its_plan(
    s: AppV,
    path: Seq<char>,
    target: Oid,
    on: RequestV,
    p: PlanV,
)
    ensures
        ({
            let n = s.went_on(
                JobV::Move { goal: Goal::Apply, path, target },
                NewsV::Request(Ok(on)),
            );
            &&& n.app == s && n.job == (JobV::MoveAt { path, target, on })
            &&& n.want == (WantV::Move { path, target: on.rev, head: on.head })
        }),
        ({
            let n = s.went_on(JobV::MoveAt { path, target, on }, NewsV::Plan(Ok(p)));
            n.want matches WantV::Rewrite(o) && asks(
                s,
                o,
                on.branch,
                p.base,
                p.tip,
                None,
                p.recipe,
            ) && o.drop_empty && o.sync && !o.trial && o.dry_run == s.opts.dry_run
        }),
        ({
            let n = s.went_on(JobV::Move { goal: Goal::Try, path, target }, NewsV::Plan(Ok(p)));
            n.want matches WantV::Rewrite(o) && asks(
                s,
                o,
                s.branch,
                p.base,
                p.tip,
                None,
                p.recipe,
            ) && o.drop_empty && o.trial
        }),
        forall|v: Seq<crate::ops::Status>|
            v.len() > 0 ==> does_nothing(
                s,
                #[trigger] s.went_on(
                    JobV::Move { goal: Goal::Try, path, target },
                    NewsV::Statuses(Ok(v)),
                ),
            ),
        forall|v: Seq<crate::ops::Status>|
            v.len() == 0 ==> (#[trigger] s.went_on(
                JobV::Move { goal: Goal::Try, path, target },
                NewsV::Statuses(Ok(v)),
            )).want == (WantV::Move { path, target, head: s.head }),
{
    reveal(AppV::moving);
    reveal(AppV::moving_at);
}

/// A reword from the screen replaces the summary and keeps the body: a commit with a body has
/// it after an empty line, and one without has the new text alone.
pub proof fn a_reword_keeps_the_body(t: Seq<char>, c: CommitV)
    ensures
        ({
            let b = tui::body(c.message);
            let m = AppV::reworded(t, Some(c));
            &&& b.len() == 0 ==> m == t
            &&& b.len() > 0 ==> m == t + seq!['\n', '\n'] + b
        }),
        AppV::reworded(t, None) == t,
{
    reveal_strlit("\n\n");
    assert("\n\n"@ =~= seq!['\n', '\n']);
}

/// The message that a reword is planned with is the new summary with the body kept.
pub proof fn a_reword_is_planned_with_the_body(
    s: AppV,
    rev: Oid,
    t: Seq<char>,
    on: RequestV,
    c: Option<CommitV>,
)
    ensures
        s.went_on(JobV::RewordAt { rev, text: t, on }, NewsV::Commit(c)).want matches WantV::Reword {
            rev: r,
            head,
            message,
        } && r == on.rev && head == on.head && message == AppV::reworded(t, c),
{
    reveal(AppV::rewording_at);
}

/// A reword from the screen is planned for the commit that was asked for, with the body it
/// has, and run on the branch that HEAD is on. No commit is left out, and nothing checked out.
pub proof fn a_reword_runs_its_plan(
    s: AppV,
    rev: Oid,
    t: Seq<char>,
    on: RequestV,
    p: PlanV,
)
    ensures
        s.went_on(JobV::Reword { rev, text: t }, NewsV::Request(Ok(on))) == (NextV {
            app: s,
            job: JobV::RewordAt { rev, text: t, on },
            want: WantV::Commit(rev),
        }),
        ({
            let n = s.went_on(JobV::RewordAt { rev, text: t, on }, NewsV::Plan(Ok(p)));
            n.want matches WantV::Rewrite(o) && asks(
                s,
                o,
                on.branch,
                p.base,
                p.tip,
                None,
                p.recipe,
            ) && !o.drop_empty && !o.sync && !o.trial && o.dry_run == s.opts.dry_run
        }),
{
    reveal(AppV::rewording_on);
    reveal(AppV::rewording_at);
}

// ── what is said of it ──────────────────────────────────────────────────────

/// A count of signatures counts the signed rows.
pub proof fn every_signature_is_counted(rows: Seq<RowV>, n: int)
    requires
        0 <= n <= rows.len(),
    ensures
        flow::signed_rows(rows, n) == rows.take(n).filter(|r: RowV| r.signed).len(),
    decreases n,
{
    reveal(Seq::filter);
    if n > 0 {
        every_signature_is_counted(rows, n - 1);
        assert(rows.take(n).drop_last() =~= rows.take(n - 1));
    }
}

/// The oldest commit that the picked hunks touch is the lowest row that one of them goes to.
/// Where they come from a commit, that one is touched too.
pub proof fn the_oldest_touched_is_the_lowest_row(s: AppV)
    ensures
        ({
            let r = tui::routes_of(s.files);
            match labels::oldest_in(s.commits, r) {
                None => forall|x: int|
                    0 <= x < r.len() ==> tui::row_of(s.commits, #[trigger] r[x], 0) is None,
                Some(i) => {
                    &&& exists|x: int|
                        0 <= x < r.len() && tui::row_of(s.commits, #[trigger] r[x], 0) == Some(i)
                    &&& forall|x: int|
                        0 <= x < r.len() ==> (tui::row_of(s.commits, #[trigger] r[x], 0) matches Some(
                            j,
                        ) ==> j <= i)
                },
            }
        }),
        !(s.source is Commit) ==> s.oldest_touched() == labels::oldest_in(
            s.commits,
            tui::routes_of(s.files),
        ),
        s.source matches Source::Commit(src) ==> ({
            let o = labels::oldest_in(s.commits, tui::routes_of(s.files));
            let row = tui::row_of(s.commits, src, 0);
            &&& o is None && !s.splits() ==> s.oldest_touched() is None
            &&& o is Some || s.splits() ==> {
                &&& s.oldest_touched() == o || s.oldest_touched() == row
                &&& o matches Some(i) ==> (s.oldest_touched() matches Some(t) && i <= t)
                &&& row matches Some(i) ==> (s.oldest_touched() matches Some(t) && i <= t)
            }
        }),
        s.oldest_touched() matches Some(i) ==> s.rewrite_span() == i + 1,
        s.oldest_touched() is None ==> s.rewrite_span() == 0,
{
    lemma_oldest_in(s.commits, tui::routes_of(s.files));
}

proof fn lemma_oldest_in(commits: Seq<RowV>, r: Seq<Oid>)
    ensures
        match labels::oldest_in(commits, r) {
            None => forall|x: int|
                0 <= x < r.len() ==> tui::row_of(commits, #[trigger] r[x], 0) is None,
            Some(i) => {
                &&& exists|x: int|
                    0 <= x < r.len() && tui::row_of(commits, #[trigger] r[x], 0) == Some(i)
                &&& forall|x: int|
                    0 <= x < r.len() ==> (tui::row_of(commits, #[trigger] r[x], 0) matches Some(j)
                        ==> j <= i)
            },
        },
    decreases r.len(),
{
    if r.len() > 0 {
        let front = r.drop_last();
        let z = r.len() - 1;
        lemma_oldest_in(commits, front);
        assert forall|x: int| 0 <= x < z implies front[x] == #[trigger] r[x] by {}
        assert(r[z] == r.last());
        if let Some(i) = labels::oldest_in(commits, front) {
            let x = choose|x: int|
                0 <= x < front.len() && tui::row_of(commits, #[trigger] front[x], 0) == Some(i);
            assert(r[x] == front[x]);
        }
    }
}

/// How many hunks go to a commit is how many of the routes name it; each commit that one
/// names is counted once, in the order of their first occurrence.
pub proof fn the_routing_counts_each_commit(r: Seq<Oid>, t: Oid)
    ensures
        labels::times(r, t) == r.filter(|o: Oid| o == t).len(),
        labels::firsts(r).contains(t) <==> r.contains(t),
        labels::firsts(r).no_duplicates(),
        labels::tally(r).len() == labels::firsts(r).len(),
        forall|i: int|
            0 <= i < labels::tally(r).len() ==> #[trigger] labels::tally(r)[i] == (
                labels::firsts(r)[i],
                labels::times(r, labels::firsts(r)[i]),
            ),
    decreases r.len(),
{
    reveal(Seq::filter);
    if r.len() > 0 {
        let front = r.drop_last();
        the_routing_counts_each_commit(front, t);
        the_routing_counts_each_commit(front, r.last());
        let a = labels::firsts(front);
        let b = labels::firsts(r);
        if r.contains(t) {
            let x = choose|x: int| 0 <= x < r.len() && r[x] == t;
            if x < front.len() {
                assert(front[x] == t);
                assert(front.contains(t));
                let y = choose|y: int| 0 <= y < a.len() && a[y] == t;
                assert(b[y] == t);
            } else if !a.contains(t) {
                assert(b[a.len() as int] == t);
            }
        }
        if b.contains(t) {
            let y = choose|y: int| 0 <= y < b.len() && b[y] == t;
            if y < a.len() {
                assert(a[y] == t);
                assert(front.contains(t));
                let x = choose|x: int| 0 <= x < front.len() && front[x] == t;
                assert(r[x] == t);
            } else {
                assert(r[r.len() - 1] == t);
            }
        }
    }
}

/// The place of a destination in the list of commits; one without a row comes last.
pub open spec fn rank(commits: Seq<RowV>, e: (Oid, nat)) -> int {
    match tui::row_of(commits, e.0, 0) {
        Some(i) => i,
        None => commits.len() as int,
    }
}

/// They are listed by rank.
pub open spec fn ranked(commits: Seq<RowV>, v: Seq<(Oid, nat)>) -> bool {
    forall|x: int, y: int|
        0 <= x < y < v.len() ==> rank(commits, #[trigger] v[x]) <= rank(commits, #[trigger] v[y])
}

proof fn lemma_at_row_holds(
    v: Seq<(Oid, nat)>,
    commits: Seq<RowV>,
    want: Option<int>,
    n: int,
    e: (Oid, nat),
)
    requires
        0 <= n <= v.len(),
    ensures
        labels::at_row(v, commits, want, n).contains(e) <==> tui::row_of(commits, e.0, 0) == want
            && v.take(n).contains(e),
    decreases n,
{
    let a = labels::at_row(v, commits, want, n);
    if n > 0 {
        lemma_at_row_holds(v, commits, want, n - 1, e);
        let b = labels::at_row(v, commits, want, n - 1);
        let (now, was) = (v.take(n), v.take(n - 1));
        assert(now =~= was.push(v[n - 1]));
        lemma_pushed(was, v[n - 1], e);
        lemma_pushed(b, v[n - 1], e);
    } else {
        assert(!v.take(n).contains(e));
    }
}

proof fn lemma_pushed(s: Seq<(Oid, nat)>, last: (Oid, nat), e: (Oid, nat))
    ensures
        s.push(last).contains(e) <==> s.contains(e) || e == last,
{
    if s.contains(e) {
        let x = choose|x: int| 0 <= x < s.len() && s[x] == e;
        assert(s.push(last)[x] == e);
    }
    assert(s.push(last)[s.len() as int] == last);
    if s.push(last).contains(e) && e != last {
        let x = choose|x: int| 0 <= x < s.push(last).len() && s.push(last)[x] == e;
        assert(s[x] == e);
    }
}

proof fn lemma_appended(a: Seq<(Oid, nat)>, b: Seq<(Oid, nat)>, e: (Oid, nat))
    ensures
        (a + b).contains(e) <==> a.contains(e) || b.contains(e),
{
    if a.contains(e) {
        let x = choose|x: int| 0 <= x < a.len() && a[x] == e;
        assert((a + b)[x] == e);
    }
    if b.contains(e) {
        let x = choose|x: int| 0 <= x < b.len() && b[x] == e;
        assert((a + b)[a.len() + x] == e);
    }
    if (a + b).contains(e) {
        let x = choose|x: int| 0 <= x < (a + b).len() && (a + b)[x] == e;
        if x < a.len() {
            assert(a[x] == e);
        } else {
            assert(b[x - a.len()] == e);
        }
    }
}

proof fn lemma_one_row(v: Seq<(Oid, nat)>, commits: Seq<RowV>, want: Option<int>, x: int)
    requires
        0 <= x < labels::at_row(v, commits, want, v.len() as int).len(),
    ensures
        tui::row_of(commits, labels::at_row(v, commits, want, v.len() as int)[x].0, 0) == want,
{
    let a = labels::at_row(v, commits, want, v.len() as int);
    assert(a.contains(a[x]));
    lemma_at_row_holds(v, commits, want, v.len() as int, a[x]);
}

proof fn lemma_by_row(v: Seq<(Oid, nat)>, commits: Seq<RowV>, n: int)
    requires
        0 <= n <= commits.len(),
    ensures
        ranked(commits, labels::by_row(v, commits, n)),
        forall|x: int|
            0 <= x < labels::by_row(v, commits, n).len() ==> 0 <= rank(
                commits,
                #[trigger] labels::by_row(v, commits, n)[x],
            ) < n,
        forall|e: (Oid, nat)|
            #[trigger] labels::by_row(v, commits, n).contains(e) <==> v.contains(e) && (
            tui::row_of(commits, e.0, 0) matches Some(i) && 0 <= i < n),
    decreases n,
{
    if n > 0 {
        lemma_by_row(v, commits, n - 1);
        let a = labels::by_row(v, commits, n - 1);
        let b = labels::at_row(v, commits, Some(n - 1), v.len() as int);
        let c = labels::by_row(v, commits, n);
        assert(c == a + b);
        assert(v.take(v.len() as int) =~= v);
        assert forall|x: int| 0 <= x < c.len() implies {
            &&& 0 <= rank(commits, #[trigger] c[x]) < n
            &&& x >= a.len() ==> rank(commits, c[x]) == n - 1
            &&& x < a.len() ==> c[x] == a[x]
        } by {
            if x < a.len() {
                assert(c[x] == a[x]);
            } else {
                lemma_one_row(v, commits, Some(n - 1), x - a.len());
                assert(c[x] == b[x - a.len()]);
            }
        }
        assert forall|e: (Oid, nat)|
            #[trigger] c.contains(e) <==> v.contains(e) && (tui::row_of(
                commits,
                e.0,
                0,
            ) matches Some(i) && 0 <= i < n) by {
            lemma_appended(a, b, e);
            lemma_at_row_holds(v, commits, Some(n - 1), v.len() as int, e);
            assert(a.contains(e) <==> v.contains(e) && (tui::row_of(
                commits,
                e.0,
                0,
            ) matches Some(i) && 0 <= i < n - 1));
        }
    } else {
        assert forall|e: (Oid, nat)| !(#[trigger] labels::by_row(v, commits, n).contains(e)) by {}
    }
}

/// The destinations are listed newest first, those without a row last: none is lost, and
/// none is added.
pub proof fn destinations_are_listed_newest_first(v: Seq<(Oid, nat)>, commits: Seq<RowV>)
    ensures
        ranked(commits, labels::newest_first(v, commits)),
        forall|e: (Oid, nat)|
            #[trigger] labels::newest_first(v, commits).contains(e) <==> v.contains(e),
{
    let n = commits.len() as int;
    lemma_by_row(v, commits, n);
    let a = labels::by_row(v, commits, n);
    let b = labels::at_row(v, commits, None, v.len() as int);
    let c = labels::newest_first(v, commits);
    assert(c == a + b);
    assert(v.take(v.len() as int) =~= v);
    assert forall|x: int| 0 <= x < c.len() implies {
        &&& x >= a.len() ==> rank(commits, #[trigger] c[x]) == n
        &&& x < a.len() ==> c[x] == a[x] && rank(commits, c[x]) < n
    } by {
        if x >= a.len() {
            lemma_one_row(v, commits, None, x - a.len());
            assert(c[x] == b[x - a.len()]);
        } else {
            assert(c[x] == a[x]);
        }
    }
    assert forall|e: (Oid, nat)| #[trigger] c.contains(e) <==> v.contains(e) by {
        lemma_appended(a, b, e);
        lemma_at_row_holds(v, commits, None, v.len() as int, e);
        routes::a_commit_is_found_by_its_first_row(commits, e.0, 0);
        assert(a.contains(e) <==> v.contains(e) && (tui::row_of(commits, e.0, 0) matches Some(i)
            && 0 <= i < n));
    }
}

/// A hunk counts as routed by hand if it is picked and goes to a commit that inference did
/// not say.
pub proof fn hand_routing_is_against_inference(f: FileV, n: int)
    requires
        0 <= n,
    ensures
        labels::hand_routed_in(f, n) == Seq::new(
            n as nat,
            |i: int| (f.selected[i], f.targets[i], f.inferred[i]),
        ).filter(
            |h: (bool, Option<Oid>, Option<Oid>)| h.0 && h.1 is Some && h.1 != h.2,
        ).len(),
    decreases n,
{
    reveal(Seq::filter);
    if n > 0 {
        hand_routing_is_against_inference(f, n - 1);
        let all = Seq::new(n as nat, |i: int| (f.selected[i], f.targets[i], f.inferred[i]));
        assert(all.drop_last() =~= Seq::new(
            (n - 1) as nat,
            |i: int| (f.selected[i], f.targets[i], f.inferred[i]),
        ));
    }
}

/// Quitting would lose a shape edit, a file's destination, or hunks routed by hand; where
/// there is none of these it loses nothing.
pub proof fn what_quitting_would_lose(s: AppV)
    ensures
        s.unapplied() is Some <==> s.shape != ShapeV::Unchanged || s.move_target is Some
            || labels::hand_routed(s.files) > 0,
{
}

} // verus!
