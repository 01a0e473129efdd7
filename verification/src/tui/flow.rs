//! Preview, apply and submit, as conversations: each step says what it wants from
//! the repository, hears the news, and goes on.
//!
//! A preview replays what an apply would, and throws the result away. Enter is a
//! two-step gate: the first press ARMS and states the scope, the second applies.

use crate::absorb;
use crate::absorb::{Fold, FoldV};
use crate::engine::{Recipe, RecipeV};
use crate::git::{Stack, StackV};
use crate::oid::Oid;
use crate::ops;
use crate::ops::{Opts, Promotion, PromotionV, Request, RequestV, Status};
use crate::recipe;
use crate::recipe::{Plan, PlanV, Shaped, ShapedV};
use crate::rewrite::{Failure, Outcome, OutcomeV, Rewrite, RewriteV, StageV};
use crate::store::{CommitInfo, CommitV, Known};
use crate::text;
use crate::tui;
use crate::tui::plan::{Weaving, WeavingV};
use crate::tui::{App, AppV, Ask, CommitRow, Prompt, PromptV, RowV, Shape, ShapeV, Source};
use crate::{Error, ErrorV};
use vstd::prelude::*;

verus! {

// ── what is under way, what is wanted, what is heard ────────────────────────

/// What an operation is run for.
#[derive(Clone, Copy, PartialEq, Eq, Structural, Debug)]
pub enum Goal {
    /// To see what would come of it.
    Try,
    /// To state its scope.
    Arm,
    Apply,
}

/// The operation under way, and how far it has come.
#[derive(Debug)]
pub enum Job {
    Idle,
    /// A shape edit.
    Shape(Goal),
    /// The same, with the plan made.
    ShapeFrom(Goal, Shaped),
    /// A file on its way to a commit.
    Move { goal: Goal, path: String, target: Oid },
    /// The same, to be applied to the branch that HEAD is on.
    MoveAt { path: String, target: Oid, on: Request },
    /// Hunks on their way to commits.
    Fold(Goal),
    /// The same, with the recipe made.
    FoldFrom(Goal, Recipe),
    /// Hunks on their way out of `rev` into a new commit before it; the user knows it
    /// as `named`.
    Split { goal: Goal, named: Oid, rev: Oid },
    /// The same, with the new commit made.
    SplitAt { goal: Goal, named: Oid, rev: Oid, first: Oid },
    /// The same, with the plan made.
    SplitFrom { goal: Goal, named: Oid, rev: Oid, first: Oid, plan: Shaped },
    /// Hunks on their way into a new commit at the tip.
    Tip(Goal),
    /// The same, with the new commit made.
    TipAt(Oid),
    Reword { rev: Oid, text: String },
    /// The same, on the branch that HEAD is on.
    RewordAt { rev: Oid, text: String, on: Request },
}

/// A [`Job`] by its contents.
#[verifier::ext_equal]
pub enum JobV {
    Idle,
    Shape(Goal),
    ShapeFrom(Goal, ShapedV),
    Move { goal: Goal, path: Seq<char>, target: Oid },
    MoveAt { path: Seq<char>, target: Oid, on: RequestV },
    Fold(Goal),
    FoldFrom(Goal, RecipeV),
    Split { goal: Goal, named: Oid, rev: Oid },
    SplitAt { goal: Goal, named: Oid, rev: Oid, first: Oid },
    SplitFrom { goal: Goal, named: Oid, rev: Oid, first: Oid, plan: ShapedV },
    Tip(Goal),
    TipAt(Oid),
    Reword { rev: Oid, text: Seq<char> },
    RewordAt { rev: Oid, text: Seq<char>, on: RequestV },
}

/// What a job wants next.
pub enum Want {
    Nothing,
    /// Read the repository anew, and say this.
    Reload(String),
    /// The stack that is shown: what may be reshaped above `base`.
    Stack { base: Option<Oid>, head: Oid },
    /// The commits of a range.
    Range { base: Option<Oid>, tip: Oid },
    /// What is known of a commit.
    Commit(Oid),
    /// Every path that is changed.
    Status,
    /// The branch that HEAD is on.
    Branch,
    /// The branch that HEAD is on, its tip, and the commit `rev`; with `clean`, only
    /// where nothing is changed.
    Request { rev: Oid, clean: bool },
    /// The recipe that carries these changes, each on top of `source`.
    Recipe { source: Oid, folds: Vec<Fold> },
    /// The plan of a file's move.
    Move { path: String, target: Oid, head: Oid },
    /// The plan of a reword.
    Reword { rev: Oid, head: Oid, message: String },
    /// A new commit.
    Weave(Weaving),
    Rewrite(Rewrite),
    /// A move of the branch.
    Promote(Promotion),
    /// The index entries of these paths made those of the commit.
    Refresh { tip: Oid, paths: Vec<String> },
}

/// A [`Want`] by its contents.
#[verifier::ext_equal]
pub enum WantV {
    Nothing,
    Reload(Seq<char>),
    Stack { base: Option<Oid>, head: Oid },
    Range { base: Option<Oid>, tip: Oid },
    Commit(Oid),
    Status,
    Branch,
    Request { rev: Oid, clean: bool },
    Recipe { source: Oid, folds: Seq<FoldV> },
    Move { path: Seq<char>, target: Oid, head: Oid },
    Reword { rev: Oid, head: Oid, message: Seq<char> },
    Weave(WeavingV),
    Rewrite(RewriteV),
    Promote(PromotionV),
    Refresh { tip: Oid, paths: Seq<Seq<char>> },
}

/// What a job hears.
#[derive(Debug)]
pub enum News {
    Stack(Result<Stack, Error>),
    Commit(Option<CommitInfo>),
    Statuses(Result<Vec<Status>, Error>),
    Branch(Result<String, Error>),
    Request(Result<Request, Error>),
    Recipe(Result<Recipe, Error>),
    Plan(Result<Plan, Error>),
    Woven(Result<Oid, Error>),
    /// What came of a rewrite; with it, why the index could not be refreshed.
    Outcome(Result<(Outcome, Option<String>), Failure>),
    Promoted(Result<(), Error>),
    /// Why the index could not be refreshed, if it could not.
    Refreshed(Option<String>),
}

/// A [`News`] by its contents; of a failed rewrite whether the replay failed, and the
/// error.
#[verifier::ext_equal]
pub enum NewsV {
    Stack(Result<StackV, ErrorV>),
    Commit(Option<CommitV>),
    Statuses(Result<Seq<Status>, ErrorV>),
    Branch(Result<Seq<char>, ErrorV>),
    Request(Result<RequestV, ErrorV>),
    Recipe(Result<RecipeV, ErrorV>),
    Plan(Result<PlanV, ErrorV>),
    Woven(Result<Oid, ErrorV>),
    Outcome(Result<(OutcomeV, Option<Seq<char>>), (bool, ErrorV)>),
    Promoted(Result<(), ErrorV>),
    Refreshed(Option<Seq<char>>),
}

impl View for Job {
    type V = JobV;

    open spec fn view(&self) -> JobV {
        match *self {
            Job::Idle => JobV::Idle,
            Job::Shape(goal) => JobV::Shape(goal),
            Job::ShapeFrom(goal, p) => JobV::ShapeFrom(goal, p@),
            Job::MoveAt { path, target, on } => JobV::MoveAt { path: path@, target, on: on@ },
            Job::Move { goal, path, target } => JobV::Move { goal, path: path@, target },
            Job::Fold(goal) => JobV::Fold(goal),
            Job::FoldFrom(goal, r) => JobV::FoldFrom(goal, r@),
            Job::Split { goal, named, rev } => JobV::Split { goal, named, rev },
            Job::SplitAt { goal, named, rev, first } => JobV::SplitAt { goal, named, rev, first },
            Job::SplitFrom { goal, named, rev, first, plan } => JobV::SplitFrom {
                goal,
                named,
                rev,
                first,
                plan: plan@,
            },
            Job::Tip(goal) => JobV::Tip(goal),
            Job::TipAt(tip) => JobV::TipAt(tip),
            Job::Reword { rev, text } => JobV::Reword { rev, text: text@ },
            Job::RewordAt { rev, text, on } => JobV::RewordAt { rev, text: text@, on: on@ },
        }
    }
}

impl View for Want {
    type V = WantV;

    open spec fn view(&self) -> WantV {
        match *self {
            Want::Nothing => WantV::Nothing,
            Want::Reload(s) => WantV::Reload(s@),
            Want::Stack { base, head } => WantV::Stack { base, head },
            Want::Range { base, tip } => WantV::Range { base, tip },
            Want::Commit(c) => WantV::Commit(c),
            Want::Status => WantV::Status,
            Want::Branch => WantV::Branch,
            Want::Request { rev, clean } => WantV::Request { rev, clean },
            Want::Recipe { source, folds } => WantV::Recipe {
                source,
                folds: absorb::folds_view(folds@),
            },
            Want::Move { path, target, head } => WantV::Move { path: path@, target, head },
            Want::Reword { rev, head, message } => WantV::Reword { rev, head, message: message@ },
            Want::Weave(w) => WantV::Weave(w@),
            Want::Rewrite(r) => WantV::Rewrite(r.asked()),
            Want::Promote(p) => WantV::Promote(p@),
            Want::Refresh { tip, paths } => WantV::Refresh { tip, paths: text::texts(paths@) },
        }
    }
}

impl Want {
    /// A rewrite that is wanted has not begun.
    pub open spec fn fresh(&self) -> bool {
        self matches Want::Rewrite(r) ==> r.wf() && r.stage() == StageV::Working && forall|
            k: Known,
        | #[trigger] r.agrees(k)
    }
}

impl View for News {
    type V = NewsV;

    open spec fn view(&self) -> NewsV {
        match *self {
            News::Stack(Ok(s)) => NewsV::Stack(Ok(s@)),
            News::Stack(Err(e)) => NewsV::Stack(Err(e@)),
            News::Commit(Some(c)) => NewsV::Commit(Some(c@)),
            News::Commit(None) => NewsV::Commit(None),
            News::Statuses(Ok(v)) => NewsV::Statuses(Ok(v@)),
            News::Statuses(Err(e)) => NewsV::Statuses(Err(e@)),
            News::Branch(Ok(b)) => NewsV::Branch(Ok(b@)),
            News::Branch(Err(e)) => NewsV::Branch(Err(e@)),
            News::Request(Ok(q)) => NewsV::Request(Ok(q@)),
            News::Request(Err(e)) => NewsV::Request(Err(e@)),
            News::Recipe(Ok(r)) => NewsV::Recipe(Ok(r@)),
            News::Recipe(Err(e)) => NewsV::Recipe(Err(e@)),
            News::Plan(Ok(p)) => NewsV::Plan(Ok(p@)),
            News::Plan(Err(e)) => NewsV::Plan(Err(e@)),
            News::Woven(Ok(o)) => NewsV::Woven(Ok(o)),
            News::Woven(Err(e)) => NewsV::Woven(Err(e@)),
            News::Outcome(Ok((o, i))) => NewsV::Outcome(Ok((o@, crate::opt_text(i)))),
            News::Outcome(Err(f)) => NewsV::Outcome(Err((f.replaying, f.error@))),
            News::Promoted(Ok(_)) => NewsV::Promoted(Ok(())),
            News::Promoted(Err(e)) => NewsV::Promoted(Err(e@)),
            News::Refreshed(n) => NewsV::Refreshed(crate::opt_text(n)),
        }
    }
}

/// The screen, the job and what it wants, after a step.
#[verifier::ext_equal]
pub struct NextV {
    pub app: AppV,
    pub job: JobV,
    pub want: WantV,
}

/// Nothing more to do.
pub open spec fn stop(app: AppV) -> NextV {
    NextV { app, job: JobV::Idle, want: WantV::Nothing }
}

/// Go on with the job once this is heard.
pub open spec fn wait(app: AppV, job: JobV, want: WantV) -> NextV {
    NextV { app, job, want }
}

/// The screen is to be read anew.
pub open spec fn renew(app: AppV, status: Seq<char>) -> NextV {
    NextV { app, job: JobV::Idle, want: WantV::Reload(status) }
}

// ── what is said ────────────────────────────────────────────────────────────

/// How many of the commits are signed, by the rows that are shown.
pub open spec fn signed_among(rows: Seq<RowV>, order: Seq<Oid>) -> nat
    decreases order.len(),
{
    if order.len() == 0 {
        0
    } else {
        signed_among(rows, order.drop_last()) + match tui::row_of(rows, order.last(), 0) {
            Some(i) => if rows[i].signed {
                1nat
            } else {
                0nat
            },
            None => 0nat,
        }
    }
}

/// How many of the first `n` rows are signed.
pub open spec fn signed_rows(rows: Seq<RowV>, n: int) -> nat
    decreases n,
{
    if n <= 0 {
        0
    } else {
        signed_rows(rows, n - 1) + if rows[n - 1].signed {
            1nat
        } else {
            0nat
        }
    }
}

/// How many commits of the stack are signed.
pub open spec fn signed_in(rows: Seq<(Oid, CommitV)>) -> nat
    decreases rows.len(),
{
    if rows.len() == 0 {
        0
    } else {
        signed_in(rows.drop_last()) + if rows.last().1.signed {
            1nat
        } else {
            0nat
        }
    }
}

/// Suffix for the arming line naming the signatures that a rewrite drops.
pub open spec fn sign_note(n: nat) -> Seq<char> {
    if n == 0 {
        Seq::empty()
    } else {
        " · "@ + text::decimal_of(n) + " GPG signature(s) will be LOST"@
    }
}

/// The abbreviations of these commits.
pub open spec fn shorts(v: Seq<Oid>) -> Seq<Seq<char>> {
    v.map_values(|o: Oid| o.spec_short())
}

/// Suffix for the arming line naming the commits that become empty.
pub open spec fn drop_note(dropped: Seq<Oid>) -> Seq<char> {
    if dropped.len() == 0 {
        Seq::empty()
    } else {
        " · "@ + text::decimal_of(dropped.len())
            + " commit(s) become empty and will be DROPPED ("@ + text::joined(
            shorts(dropped),
            ", "@,
        ) + ")"@
    }
}

/// Where the branch went.
pub open spec fn moved_text(o: OutcomeV) -> Seq<char> {
    ops::last_part(o.branch) + " now at "@ + o.new_tip.spec_short() + " (was "@
        + o.old_tip.spec_short() + ")"@
}

/// What became of the other branches, for the status line.
pub open spec fn restack_note(o: OutcomeV) -> Seq<char> {
    if o.restacked.len() == 0 && o.warnings.len() == 0 {
        Seq::empty()
    } else if o.warnings.len() == 0 {
        " · restacked "@ + text::decimal_of(o.restacked.len()) + " branch(es)"@
    } else if o.restacked.len() == 0 {
        " · "@ + text::joined(o.warnings, "; "@)
    } else {
        " · restacked "@ + text::decimal_of(o.restacked.len()) + ", "@ + text::joined(
            o.warnings,
            "; "@,
        )
    }
}

/// What is said where the index could not follow.
pub open spec fn index_note(why: Option<Seq<char>>) -> Seq<char> {
    match why {
        Some(e) => " · index not synced ("@ + e + ") — `git reset` fixes it"@,
        None => Seq::empty(),
    }
}

impl AppV {
    /// The branch name to print.
    pub open spec fn short_branch(self) -> Seq<char> {
        ops::last_part(self.branch)
    }

    /// What a trial that went well says.
    pub open spec fn would_move(self, o: OutcomeV) -> Seq<char> {
        "clean, would move "@ + self.short_branch() + " to "@ + o.new_tip.spec_short()
    }

    /// Default message of a new commit. One at the tip is new work, not a piece of
    /// something.
    pub open spec fn split_message(self) -> Seq<char> {
        match self.source {
            Source::Commit(o) => self.summary_of(o) + " (part 1)"@,
            _ => Seq::empty(),
        }
    }

    /// Does any picked hunk go elsewhere than into a new commit?
    pub open spec fn strays(self) -> bool {
        exists|i: int|
            0 <= i < tui::routes_of(self.files).len() && (#[trigger] tui::routes_of(self.files)[i])
                != tui::phantom()
    }

    /// The plan for the pending shape edit on this stack.
    pub open spec fn shape_plan(self, s: StackV) -> Result<ShapedV, ErrorV> {
        match self.shape {
            ShapeV::Unchanged => Err(ErrorV::TargetNotAncestor),
            ShapeV::Reorder(_) => if s.rows.len() == 0 {
                Err(ErrorV::TargetNotAncestor)
            } else {
                recipe::shaped_of(s, self.head, self.commit_order(), RecipeV::empty(), None)
            },
            ShapeV::Drop(o) => recipe::dropped_of(s, self.head, o),
            ShapeV::Squash(o) => recipe::squashed_of(s, self.head, o, None),
        }
    }

    /// The options of a dry run.
    pub open spec fn dry(self) -> Opts {
        Opts { dry_run: true, ..self.opts }
    }

    /// The pending apply taken back, or not armed.
    pub open spec fn disarmed(self) -> AppV {
        AppV { pending_apply: false, ..self }
    }

    /// The apply armed.
    pub open spec fn armed(self) -> AppV {
        AppV { pending_apply: true, ..self }
    }

    /// The stack that is shown.
    pub open spec fn stack_wanted(self) -> WantV {
        WantV::Stack { base: self.base, head: self.head }
    }

    /// Where the picked hunks become one new commit on top of the source's base, and
    /// its message.
    pub open spec fn weaving(self, parent: Oid, message: Seq<char>) -> WeavingV {
        WeavingV { parent, parts: self.parts(), message }
    }
}

// ── how it begins ───────────────────────────────────────────────────────────

impl AppV {
    /// `p`: a dry run of what Enter would do. A pending shape edit outranks the hunk
    /// and file selection.
    pub open spec fn previewed(self) -> NextV {
        if self.shape != ShapeV::Unchanged {
            wait(self, JobV::Shape(Goal::Try), self.stack_wanted())
        } else if self.source == Source::Files {
            match (self.cursor_file(), self.move_target) {
                (Some(path), Some(target)) => wait(
                    self,
                    JobV::Move { goal: Goal::Try, path, target },
                    WantV::Status,
                ),
                _ => stop(self.say("pick a file and a destination (t) first"@)),
            }
        } else if self.splits() {
            if self.strays() {
                stop(
                    self.say(
                        "split takes the whole selection — route every picked hunk to + new commit"@,
                    ),
                )
            } else {
                match self.source {
                    Source::Commit(src) => if self.parts().len() == 0 {
                        stop(self.say("pick hunks (Space) and route them with t first"@))
                    } else {
                        wait(
                            self,
                            JobV::Split { goal: Goal::Try, named: src, rev: src },
                            WantV::Weave(self.weaving(self.source_base, self.split_message())),
                        )
                    },
                    _ => if self.parts().len() == 0 {
                        stop(
                            self.say("pick hunks (Space) and route them to + new commit with t"@),
                        )
                    } else {
                        wait(
                            self,
                            JobV::Tip(Goal::Try),
                            WantV::Weave(self.weaving(self.head, "preview"@)),
                        )
                    },
                }
            }
        } else if self.folds().len() == 0 {
            stop(self.say("select hunks (Space) and set targets (t) first"@))
        } else {
            wait(
                self,
                JobV::Fold(Goal::Try),
                WantV::Recipe { source: self.source_base, folds: self.folds() },
            )
        }
    }

    /// Enter, with a file on its way.
    pub open spec fn executed_move(self) -> NextV {
        match (self.cursor_file(), self.move_target) {
            (Some(path), Some(target)) => if self.pending_apply {
                wait(
                    self.disarmed(),
                    JobV::Move { goal: Goal::Apply, path, target },
                    WantV::Request { rev: target, clean: true },
                )
            } else {
                wait(self, JobV::Move { goal: Goal::Arm, path, target }, WantV::Status)
            },
            _ => stop(
                self.say("pick a file (↑↓) and a destination (Tab to commits, then t)"@),
            ),
        }
    }

    /// Enter, with hunks picked. A new commit needs a message, and the prompt IS the
    /// gate: nothing is applied without naming the commit it makes.
    pub open spec fn executed_hunks(self) -> NextV {
        if self.splits() {
            if self.strays() {
                stop(
                    self.disarmed().say(
                        "split takes the whole selection — route every picked hunk to + new commit"@,
                    ),
                )
            } else {
                stop(
                    AppV {
                        input: Some(
                            PromptV {
                                label: "message"@,
                                text: self.split_message(),
                                what: match self.source {
                                    Source::Commit(src) => Ask::Split(src),
                                    _ => Ask::NewCommit,
                                },
                            },
                        ),
                        ..self.disarmed()
                    },
                )
            }
        } else if !self.pending_apply {
            if self.rewrite_span() == 0 {
                stop(self.say("nothing selected to apply"@))
            } else {
                wait(
                    self.armed(),
                    JobV::Fold(Goal::Arm),
                    WantV::Recipe { source: self.source_base, folds: self.folds() },
                )
            }
        } else if self.folds().len() == 0 {
            stop(self.disarmed().say("nothing selected to apply"@))
        } else {
            wait(
                self.disarmed(),
                JobV::Fold(Goal::Apply),
                WantV::Recipe { source: self.source_base, folds: self.folds() },
            )
        }
    }

    /// Enter: the first press reports scope, the second applies.
    pub open spec fn executed(self) -> NextV {
        if self.shape != ShapeV::Unchanged {
            wait(
                self,
                JobV::Shape(
                    if self.pending_apply {
                        Goal::Apply
                    } else {
                        Goal::Arm
                    },
                ),
                self.stack_wanted(),
            )
        } else if self.source == Source::Files {
            self.executed_move()
        } else {
            self.executed_hunks()
        }
    }

    /// Enter in the prompt: run what it was asking for.
    pub open spec fn submitted(self) -> NextV {
        let s = AppV { input: None, ..self };
        match self.input {
            None => stop(self),
            Some(p) => {
                let text = text::trimmed(p.text);
                let lost = s.say("not applied: nothing routed to the new commit"@);
                if text.len() == 0 {
                    stop(s.say("empty message — nothing done"@))
                } else {
                    match p.what {
                        Ask::Reword(rev) => wait(
                            s,
                            JobV::Reword { rev, text },
                            WantV::Request { rev, clean: false },
                        ),
                        Ask::Split(named) => match s.source {
                            Source::Commit(rev) => if s.parts().len() == 0 {
                                stop(lost)
                            } else {
                                wait(
                                    s,
                                    JobV::Split { goal: Goal::Apply, named, rev },
                                    WantV::Weave(s.weaving(s.source_base, text)),
                                )
                            },
                            _ => stop(lost),
                        },
                        Ask::Filter => stop(
                            s.say(
                                text::decimal_of(s.visible_files().len())
                                    + " file(s) match \""@ + text + "\" — / to change it"@,
                            ),
                        ),
                        Ask::NewCommit => if s.parts().len() == 0 {
                            stop(lost)
                        } else {
                            wait(
                                s,
                                JobV::Tip(Goal::Apply),
                                WantV::Weave(s.weaving(s.head, text)),
                            )
                        },
                    }
                }
            },
        }
    }
}

// ── how it goes on ──────────────────────────────────────────────────────────

impl AppV {
    /// A shape edit goes on.
    #[verifier::opaque]
    pub open spec fn shaping(self, goal: Goal, news: NewsV) -> NextV {
        match news {
            NewsV::Stack(r) => {
                let plan = match r {
                    Ok(s) => self.shape_plan(s),
                    Err(e) => Err(e),
                };
                match (plan, goal) {
                    (Err(e), Goal::Try) => stop(self.say(e.message())),
                    (Err(e), _) => stop(self.disarmed().say(e.message())),
                    (Ok(p), Goal::Try) => wait(self, JobV::ShapeFrom(goal, p), WantV::Branch),
                    (Ok(p), Goal::Arm) => stop(
                        self.armed().say(
                            self.shape.summary() + " — rewrite "@ + text::decimal_of(
                                p.order.len(),
                            ) + " commit(s) on "@ + self.short_branch() + sign_note(
                                signed_among(self.commits, p.order),
                            ) + " · Enter again to apply · Esc: cancel"@,
                        ),
                    ),
                    (Ok(p), Goal::Apply) => wait(
                        self.disarmed(),
                        JobV::ShapeFrom(goal, p),
                        WantV::Branch,
                    ),
                }
            },
            NewsV::Outcome(r) => stop(
                match (r, goal) {
                    (Ok((o, _)), Goal::Apply) => AppV { applied: true, ..self }.say(
                        moved_text(o) + " · undo: git-transplant undo"@,
                    ),
                    (Ok((o, _)), _) => self.say(
                        self.would_move(o) + " ("@ + self.shape.summary() + ")"@,
                    ),
                    (Err((_, e)), _) => self.not_reshaped(goal, e),
                },
            ),
            _ => stop(self),
        }
    }

    /// What a rewrite that does not come about says.
    pub open spec fn not_reshaped(self, goal: Goal, e: ErrorV) -> AppV {
        self.say(
            (if goal == Goal::Apply {
                "not applied: "@
            } else {
                "conflict: "@
            }) + e.message(),
        )
    }

    /// What is done with the plan of a new shape: applied as asked, or else tried.
    pub open spec fn shape_opts(self, goal: Goal) -> Opts {
        if goal == Goal::Apply {
            self.opts
        } else {
            self.dry()
        }
    }

    /// A shape edit with its plan made goes on: it reshapes the branch that HEAD is on.
    #[verifier::opaque]
    pub open spec fn shaping_from(self, goal: Goal, p: ShapedV, news: NewsV) -> NextV {
        match news {
            NewsV::Branch(Err(e)) => stop(self.not_reshaped(goal, e)),
            NewsV::Branch(Ok(b)) => wait(
                self,
                JobV::Shape(goal),
                WantV::Rewrite(
                    ops::asked_shape(b, p, self.shape.message(), false, self.shape_opts(goal)),
                ),
            ),
            _ => stop(self),
        }
    }

    /// The rewrite that moves a file.
    pub open spec fn move_rewrite(
        self,
        branch: Seq<char>,
        plan: PlanV,
        path: Seq<char>,
        target: Oid,
    ) -> RewriteV {
        ops::asked(
            branch,
            plan,
            true,
            "transplant: move "@ + path + " to "@ + target.spec_short(),
            true,
            self.opts,
        )
    }

    /// The scope of a file's move.
    pub open spec fn armed_move(self, path: Seq<char>, target: Oid, signed: nat) -> AppV {
        self.armed().say(
            "move "@ + path + " → "@ + target.spec_short() + " on "@ + self.short_branch()
                + sign_note(signed) + " — Enter again to apply · any key: cancel"@,
        )
    }

    /// A file's move goes on. It needs a clean tree: previewing it applies the same
    /// guard, so a preview cannot promise what an apply would refuse. What is previewed
    /// is the stack that is shown; what is applied, the branch that HEAD is on then.
    #[verifier::opaque]
    pub open spec fn moving(self, goal: Goal, path: Seq<char>, target: Oid, news: NewsV) -> NextV {
        let job = JobV::Move { goal, path, target };
        let fails = |e: ErrorV|
            if goal == Goal::Arm {
                stop(self.armed_move(path, target, 0))
            } else {
                stop(self.say(e.message()))
            };
        if goal == Goal::Apply {
            match news {
                NewsV::Request(Err(e)) => fails(e),
                NewsV::Request(Ok(on)) => wait(
                    self,
                    JobV::MoveAt { path, target, on },
                    WantV::Move { path, target: on.rev, head: on.head },
                ),
                _ => stop(self),
            }
        } else {
            match news {
                NewsV::Statuses(Err(e)) => fails(e),
                NewsV::Statuses(Ok(v)) => if v.len() > 0 {
                    fails(ErrorV::DirtyWorktree)
                } else {
                    wait(self, job, WantV::Move { path, target, head: self.head })
                },
                NewsV::Plan(Err(e)) => fails(e),
                NewsV::Plan(Ok(p)) => wait(
                    self,
                    job,
                    if goal == Goal::Try {
                        WantV::Rewrite(
                            RewriteV {
                                trial: true,
                                ..self.move_rewrite(self.branch, p, path, target)
                            },
                        )
                    } else {
                        WantV::Range { base: p.base, tip: p.tip }
                    },
                ),
                NewsV::Stack(r) => if goal == Goal::Arm {
                    stop(
                        self.armed_move(
                            path,
                            target,
                            match r {
                                Ok(s) => signed_in(s.rows),
                                Err(_) => 0,
                            },
                        ),
                    )
                } else {
                    stop(self)
                },
                NewsV::Outcome(r) => stop(
                    match r {
                        Ok((o, _)) => self.say(self.would_move(o)),
                        Err((_, e)) => self.say("conflict: "@ + e.message()),
                    },
                ),
                _ => stop(self),
            }
        }
    }

    /// A file's move that is applied goes on.
    #[verifier::opaque]
    pub open spec fn moving_at(
        self,
        path: Seq<char>,
        target: Oid,
        on: RequestV,
        news: NewsV,
    ) -> NextV {
        match news {
            NewsV::Plan(Err(e)) => stop(self.say(e.message())),
            NewsV::Plan(Ok(p)) => wait(
                self,
                JobV::MoveAt { path, target, on },
                WantV::Rewrite(self.move_rewrite(on.branch, p, path, on.rev)),
            ),
            NewsV::Outcome(r) => stop(
                match r {
                    Ok((o, _)) => AppV { applied: true, ..self }.say(
                        "moved "@ + path + " → "@ + target.spec_short() + "; "@ + moved_text(o)
                            + " · undo: git-transplant undo"@,
                    ),
                    Err((_, e)) => self.say(e.message()),
                },
            ),
            _ => stop(self),
        }
    }

    /// The scope of a fold: from the oldest commit it touches to the tip.
    pub open spec fn armed_fold(self, dropped: Seq<Oid>) -> AppV {
        let n = self.rewrite_span();
        self.say(
            "rewrite "@ + text::decimal_of(n as nat) + " commit(s) on "@ + self.short_branch()
                + drop_note(dropped) + sign_note(signed_rows(self.commits, n))
                + " — Enter again to apply · Esc: cancel"@,
        )
    }

    /// The rewrite that folds the picked hunks. It moves the branch only, so that
    /// deselected hunks stay where they are. What came from the worktree is in
    /// history then: the index has to catch up for those paths.
    pub open spec fn fold_rewrite(self, goal: Goal, recipe: RecipeV, base: Option<Oid>) -> RewriteV {
        let r = ops::asked(
            self.branch,
            PlanV { recipe, base, tip: self.head },
            true,
            "transplant: tui fold"@,
            false,
            self.opts,
        );
        if goal != Goal::Apply {
            RewriteV { trial: true, ..r }
        } else {
            RewriteV {
                lazy: true,
                paths: if self.source == Source::Unstaged {
                    self.picked_paths()
                } else {
                    Seq::empty()
                },
                ..r
            }
        }
    }

    /// A fold goes on.
    #[verifier::opaque]
    pub open spec fn folding(self, goal: Goal, news: NewsV) -> NextV {
        match news {
            NewsV::Recipe(Err(e)) => stop(
                match goal {
                    Goal::Try => self.say("preview error: "@ + e.message()),
                    Goal::Arm => self.armed_fold(Seq::empty()),
                    Goal::Apply => self.say("error: "@ + e.message()),
                },
            ),
            NewsV::Recipe(Ok(r)) => match self.oldest_touched() {
                Some(i) => wait(
                    self,
                    JobV::FoldFrom(goal, r),
                    WantV::Commit(self.commits[i].oid),
                ),
                None => wait(
                    self,
                    JobV::Fold(goal),
                    WantV::Rewrite(self.fold_rewrite(goal, r, None)),
                ),
            },
            NewsV::Outcome(r) => stop(
                match (r, goal) {
                    (Ok((o, _)), Goal::Arm) => self.armed_fold(o.dropped),
                    (Err(_), Goal::Arm) => self.armed_fold(Seq::empty()),
                    (Err((_, e)), Goal::Try) => self.say("conflict: "@ + e.message()),
                    (Err((true, e)), Goal::Apply) => self.say(
                        "conflict, not applied: "@ + e.message(),
                    ),
                    (Err((false, e)), Goal::Apply) => self.say(
                        "promote failed: "@ + e.message(),
                    ),
                    (Ok((o, index)), _) => if o.new_tip == self.head {
                        self.say("no change — targets already hold these hunks"@)
                    } else if goal == Goal::Try {
                        self.say(self.would_move(o) + " · "@ + self.routing_summary())
                    } else {
                        AppV { applied: true, ..self }.say(
                            moved_text(o) + restack_note(o) + index_note(index)
                                + " · undo: git-transplant undo"@,
                        )
                    },
                },
            ),
            _ => stop(self),
        }
    }

    /// A fold with its recipe made goes on: it is replayed from below the oldest
    /// commit that it touches, where that is known.
    #[verifier::opaque]
    pub open spec fn folding_from(self, goal: Goal, r: RecipeV, news: NewsV) -> NextV {
        match news {
            NewsV::Commit(c) => wait(
                self,
                JobV::Fold(goal),
                WantV::Rewrite(
                    self.fold_rewrite(
                        goal,
                        r,
                        match c {
                            Some(c) => recipe::first_parent(c.parents),
                            None => None,
                        },
                    ),
                ),
            ),
            _ => stop(self),
        }
    }

    /// What a split that fails says.
    pub open spec fn unsplit(self, goal: Goal, e: ErrorV) -> NextV {
        stop(
            self.say(
                if goal == Goal::Apply {
                    "not applied: "@ + e.message()
                } else {
                    e.message()
                },
            ),
        )
    }

    /// A split goes on.
    #[verifier::opaque]
    pub open spec fn splitting(self, goal: Goal, named: Oid, rev: Oid, news: NewsV) -> NextV {
        match news {
            NewsV::Woven(Ok(first)) => wait(
                self,
                JobV::SplitAt { goal, named, rev, first },
                self.stack_wanted(),
            ),
            NewsV::Woven(Err(e)) => self.unsplit(goal, e),
            _ => stop(self),
        }
    }

    /// A split with its new commit made goes on.
    #[verifier::opaque]
    pub open spec fn splitting_at(
        self,
        goal: Goal,
        named: Oid,
        rev: Oid,
        first: Oid,
        news: NewsV,
    ) -> NextV {
        match news {
            NewsV::Stack(Err(e)) => self.unsplit(goal, e),
            NewsV::Stack(Ok(s)) => match recipe::split_of(s, self.head, rev, first) {
                Err(e) => self.unsplit(goal, e),
                Ok(p) => wait(
                    self,
                    JobV::SplitFrom { goal, named, rev, first, plan: p },
                    WantV::Branch,
                ),
            },
            NewsV::Outcome(Ok((o, _))) => if goal == Goal::Apply {
                renew(
                    self,
                    "split "@ + named.spec_short() + "; "@ + moved_text(o) + " · undo: u"@,
                )
            } else {
                stop(self.say(self.would_move(o) + " (split into a new commit)"@))
            },
            NewsV::Outcome(Err((_, e))) => stop(self.not_reshaped(goal, e)),
            _ => stop(self),
        }
    }

    /// A split with its plan made goes on: it reshapes the branch that HEAD is on.
    #[verifier::opaque]
    pub open spec fn splitting_from(
        self,
        goal: Goal,
        named: Oid,
        rev: Oid,
        first: Oid,
        p: ShapedV,
        news: NewsV,
    ) -> NextV {
        match news {
            NewsV::Branch(Err(e)) => stop(self.not_reshaped(goal, e)),
            NewsV::Branch(Ok(b)) => wait(
                self,
                JobV::SplitAt { goal, named, rev, first },
                WantV::Rewrite(
                    ops::asked_shape(
                        b,
                        p,
                        if goal == Goal::Apply {
                            "transplant: tui split "@ + named.spec_short()
                        } else {
                            "transplant: tui split"@
                        },
                        false,
                        self.shape_opts(goal),
                    ),
                ),
            ),
            _ => stop(self),
        }
    }

    /// A new commit at the tip goes on. Nothing below it moves, so there is no replay
    /// to run, and nothing that can conflict.
    #[verifier::opaque]
    pub open spec fn tipping(self, goal: Goal, news: NewsV) -> NextV {
        match (news, goal) {
            (NewsV::Woven(Ok(tip)), Goal::Apply) => wait(
                self,
                JobV::TipAt(tip),
                WantV::Promote(
                    PromotionV {
                        branch: self.branch,
                        new_tip: tip,
                        old_tip: self.head,
                        message: "transplant: tui commit"@,
                        sync: false,
                    },
                ),
            ),
            (NewsV::Woven(Ok(_)), _) => stop(
                self.say(
                    "clean — "@ + text::decimal_of(tui::picked_of(self.files))
                        + " picked hunk(s) would become a NEW commit on top of "@
                        + self.head.spec_short() + "; nothing below it moves"@,
                ),
            ),
            (NewsV::Woven(Err(e)), Goal::Apply) => stop(
                self.say("not applied: "@ + e.message()),
            ),
            (NewsV::Woven(Err(e)), _) => stop(self.say("error: "@ + e.message())),
            _ => stop(self),
        }
    }

    /// What is said of a new commit at the tip.
    pub open spec fn committed(self, tip: Oid, why: Option<Seq<char>>) -> NextV {
        renew(
            self,
            "committed "@ + tip.spec_short() + " on "@ + self.short_branch() + index_note(why)
                + " · undo: u"@,
        )
    }

    /// A new commit at the tip with its commit made goes on.
    #[verifier::opaque]
    pub open spec fn tipping_at(self, tip: Oid, news: NewsV) -> NextV {
        match news {
            NewsV::Promoted(Err(e)) => stop(self.say("not applied: "@ + e.message())),
            NewsV::Promoted(Ok(_)) => if self.source == Source::Unstaged {
                wait(
                    self,
                    JobV::TipAt(tip),
                    WantV::Refresh { tip, paths: self.picked_paths() },
                )
            } else {
                self.committed(tip, None)
            },
            NewsV::Refreshed(why) => self.committed(tip, why),
            _ => stop(self),
        }
    }

    /// The message that a reword gives: the new summary, with the body kept.
    pub open spec fn reworded(text: Seq<char>, c: Option<CommitV>) -> Seq<char> {
        let body = match c {
            Some(c) => tui::body(c.message),
            None => Seq::empty(),
        };
        if body.len() == 0 {
            text
        } else {
            text + "\n\n"@ + body
        }
    }

    /// A reword begins.
    #[verifier::opaque]
    pub open spec fn rewording_on(self, rev: Oid, text: Seq<char>, news: NewsV) -> NextV {
        match news {
            NewsV::Request(Err(e)) => stop(self.say("not applied: "@ + e.message())),
            NewsV::Request(Ok(on)) => wait(
                self,
                JobV::RewordAt { rev, text, on },
                WantV::Commit(rev),
            ),
            _ => stop(self),
        }
    }

    /// A reword on the branch that HEAD is on goes on.
    #[verifier::opaque]
    pub open spec fn rewording_at(
        self,
        rev: Oid,
        text: Seq<char>,
        on: RequestV,
        news: NewsV,
    ) -> NextV {
        let job = JobV::RewordAt { rev, text, on };
        match news {
            NewsV::Commit(c) => wait(
                self,
                job,
                WantV::Reword {
                    rev: on.rev,
                    head: on.head,
                    message: AppV::reworded(text, c),
                },
            ),
            NewsV::Plan(Err(e)) => stop(self.say("not applied: "@ + e.message())),
            NewsV::Plan(Ok(p)) => wait(
                self,
                job,
                WantV::Rewrite(
                    ops::asked(
                        on.branch,
                        p,
                        false,
                        "transplant: reword "@ + on.rev.spec_short(),
                        false,
                        self.opts,
                    ),
                ),
            ),
            NewsV::Outcome(Ok((o, _))) => renew(
                self,
                "reworded "@ + rev.spec_short() + "; "@ + moved_text(o) + " · undo: u"@,
            ),
            NewsV::Outcome(Err((_, e))) => stop(self.say("not applied: "@ + e.message())),
            _ => stop(self),
        }
    }

    /// A job goes on after the news. How each kind of job does is opaque: a proof reveals
    /// the one that it is about.
    pub open spec fn went_on(self, job: JobV, news: NewsV) -> NextV {
        match job {
            JobV::Idle => stop(self),
            JobV::Shape(goal) => self.shaping(goal, news),
            JobV::ShapeFrom(goal, p) => self.shaping_from(goal, p, news),
            JobV::Move { goal, path, target } => self.moving(goal, path, target, news),
            JobV::MoveAt { path, target, on } => self.moving_at(path, target, on, news),
            JobV::Fold(goal) => self.folding(goal, news),
            JobV::FoldFrom(goal, r) => self.folding_from(goal, r, news),
            JobV::Split { goal, named, rev } => self.splitting(goal, named, rev, news),
            JobV::SplitAt { goal, named, rev, first } => self.splitting_at(
                goal,
                named,
                rev,
                first,
                news,
            ),
            JobV::SplitFrom { goal, named, rev, first, plan } => self.splitting_from(
                goal,
                named,
                rev,
                first,
                plan,
                news,
            ),
            JobV::Tip(goal) => self.tipping(goal, news),
            JobV::TipAt(tip) => self.tipping_at(tip, news),
            JobV::Reword { rev, text } => self.rewording_on(rev, text, news),
            JobV::RewordAt { rev, text, on } => self.rewording_at(rev, text, on, news),
        }
    }
}

// ── the texts ───────────────────────────────────────────────────────────────

fn count_signed(rows: &Vec<CommitRow>, order: &Vec<Oid>) -> (n: usize)
    ensures
        n == signed_among(tui::rows_view(rows@), order@),
{
    let mut n: usize = 0;
    let mut i: usize = 0;
    assert(order@.take(0) =~= Seq::empty());
    while i < order.len()
        invariant
            0 <= i <= order@.len(),
            n == signed_among(tui::rows_view(rows@), order@.take(i as int)),
            n <= i,
        decreases order@.len() - i,
    {
        assert(order@.take(i + 1).drop_last() =~= order@.take(i as int));
        if let Some(r) = tui::row(rows, order[i]) {
            assert(tui::rows_view(rows@)[r as int] == rows@[r as int]@);
            if rows[r].signed {
                n += 1;
            }
        }
        i += 1;
    }
    assert(order@.take(i as int) =~= order@);
    n
}

fn count_signed_rows(rows: &Vec<CommitRow>, n: usize) -> (r: usize)
    requires
        n <= rows@.len(),
    ensures
        r == signed_rows(tui::rows_view(rows@), n as int),
{
    let mut r: usize = 0;
    let mut i: usize = 0;
    while i < n
        invariant
            0 <= i <= n <= rows@.len(),
            r == signed_rows(tui::rows_view(rows@), i as int),
            r <= i,
        decreases n - i,
    {
        assert(tui::rows_view(rows@)[i as int] == rows@[i as int]@);
        if rows[i].signed {
            r += 1;
        }
        i += 1;
    }
    r
}

fn count_signed_in(s: &Stack) -> (n: usize)
    ensures
        n == signed_in(s@.rows),
{
    let ghost rows = s@.rows;
    let mut n: usize = 0;
    let mut i: usize = 0;
    assert(rows.take(0) =~= Seq::empty());
    while i < s.rows.len()
        invariant
            rows == s@.rows,
            0 <= i <= s.rows@.len(),
            n == signed_in(rows.take(i as int)),
            n <= i,
        decreases s.rows@.len() - i,
    {
        assert(rows.take(i + 1).drop_last() =~= rows.take(i as int));
        assert(rows.take(i + 1).last() == (s.rows@[i as int].0, s.rows@[i as int].1@));
        if s.rows[i].1.signed {
            n += 1;
        }
        i += 1;
    }
    assert(rows.take(i as int) =~= rows);
    n
}

fn sign_text(n: usize) -> (s: String)
    ensures
        s@ == sign_note(n as nat),
{
    if n == 0 {
        let s = String::new();
        assert(s@ =~= Seq::empty());
        s
    } else {
        " · ".to_owned().concat(&text::decimal(n)).concat(" GPG signature(s) will be LOST")
    }
}

fn drop_text(dropped: &Vec<Oid>) -> (s: String)
    ensures
        s@ == drop_note(dropped@),
{
    if dropped.len() == 0 {
        let s = String::new();
        assert(s@ =~= Seq::empty());
        return s;
    }
    let mut names: Vec<String> = Vec::new();
    let mut i: usize = 0;
    while i < dropped.len()
        invariant
            0 <= i <= dropped@.len(),
            text::texts(names@) == shorts(dropped@).take(i as int),
        decreases dropped@.len() - i,
    {
        let ghost before = text::texts(names@);
        names.push(dropped[i].short());
        i += 1;
        assert(text::texts(names@) =~= before.push(shorts(dropped@)[i - 1]));
        assert(shorts(dropped@).take(i as int) =~= shorts(dropped@).take(i - 1).push(
            shorts(dropped@)[i - 1],
        ));
    }
    assert(text::texts(names@) =~= shorts(dropped@));
    " · ".to_owned().concat(&text::decimal(dropped.len())).concat(
        " commit(s) become empty and will be DROPPED (",
    ).concat(&text::join(&names, ", ")).concat(")")
}

fn moved_to(o: &Outcome) -> (s: String)
    ensures
        s@ == moved_text(o@),
{
    o.short_branch().to_owned().concat(" now at ").concat(&o.new_tip.short()).concat(
        " (was ",
    ).concat(&o.old_tip.short()).concat(")")
}

fn restack_text(o: &Outcome) -> (s: String)
    ensures
        s@ == restack_note(o@),
{
    let moved: usize = o.restacked.len();
    let warned: usize = o.warnings.len();
    assert(text::texts(o.restacked@).len() == moved);
    assert(text::texts(o.warnings@).len() == warned);
    if moved == 0 && warned == 0 {
        let s = String::new();
        assert(s@ =~= Seq::empty());
        s
    } else if warned == 0 {
        " · restacked ".to_owned().concat(&text::decimal(moved)).concat(" branch(es)")
    } else if moved == 0 {
        " · ".to_owned().concat(&text::join(&o.warnings, "; "))
    } else {
        " · restacked ".to_owned().concat(&text::decimal(moved)).concat(", ").concat(
            &text::join(&o.warnings, "; "),
        )
    }
}

fn index_text(why: &Option<String>) -> (s: String)
    ensures
        s@ == index_note(crate::opt_text(*why)),
{
    match why {
        Some(e) => " · index not synced (".to_owned().concat(e).concat(
            ") — `git reset` fixes it",
        ),
        None => {
            let s = String::new();
            assert(s@ =~= Seq::empty());
            s
        },
    }
}

impl App {
    /// The stack that is shown.
    fn want_stack(&self) -> (w: Want)
        ensures
            w@ == self@.stack_wanted(),
            w.fresh(),
    {
        Want::Stack { base: self.base, head: self.head }
    }
}

impl App {
    fn tell(&mut self, status: String)
        ensures
            final(self)@ == old(self)@.say(status@),
    {
        self.status = status;
    }

    fn would_move(&self, o: &Outcome) -> (s: String)
        ensures
            s@ == self@.would_move(o@),
    {
        "clean, would move ".to_owned().concat(self.short_branch()).concat(" to ").concat(
            &o.new_tip.short(),
        )
    }

    /// Default message for the new commit.
    pub fn split_message(&self) -> (s: String)
        ensures
            s@ == self@.split_message(),
    {
        match self.source {
            Source::Commit(o) => self.summary_of(o).concat(" (part 1)"),
            _ => {
                let s = String::new();
                assert(s@ =~= Seq::empty());
                s
            },
        }
    }

    /// A new commit takes the WHOLE selection: mixing "some hunks split off, others
    /// absorbed elsewhere" is refused rather than half-applied.
    pub fn check_split_is_the_whole_selection(&self) -> (r: Result<(), String>)
        requires
            self@.wf(),
        ensures
            r is Ok <==> !self@.strays(),
            r matches Err(e) ==> e@
                == "split takes the whole selection — route every picked hunk to + new commit"@,
    {
        let v = self.routes();
        let mut i: usize = 0;
        while i < v.len()
            invariant
                v@ == tui::routes_of(self@.files),
                0 <= i <= v@.len(),
                forall|j: int| 0 <= j < i ==> (#[trigger] v@[j]) == tui::spec_phantom(),
            decreases v@.len() - i,
        {
            if v[i] != tui::phantom() {
                assert(tui::routes_of(self@.files)[i as int] != tui::spec_phantom());
                return Err(
                    "split takes the whole selection — route every picked hunk to + new commit".to_owned(),
                );
            }
            i += 1;
        }
        Ok(())
    }

    /// The plan for the pending shape edit, on the stack that is shown.
    pub fn shape_plan(&self, s: &Stack) -> (r: Result<Shaped, Error>)
        ensures
            recipe::shaped_view(r) == self@.shape_plan(s@),
    {
        match &self.shape {
            Shape::Unchanged => Err(Error::TargetNotAncestor),
            Shape::Reorder(_) => {
                assert(s@.rows.len() == s.rows@.len());
                if s.rows.len() == 0 {
                    return Err(Error::TargetNotAncestor);
                }
                recipe::reshape(s, self.head, self.commit_order())
            },
            Shape::Drop(o) => recipe::drop_commit(s, self.head, *o),
            Shape::Squash(o) => recipe::squash(s, self.head, *o, None),
        }
    }

    fn dry(&self) -> (o: Opts)
        ensures
            o == self@.dry(),
    {
        Opts { dry_run: true, ..self.opts }
    }

    /// The picked hunks as one new commit before the source commit, on top of its
    /// parent; none where no hunk goes there.
    pub fn phantom_synthetic(&self, msg: &str) -> (r: Option<Weaving>)
        ensures
            match r {
                Some(w) => self@.parts().len() > 0 && w@ == self@.weaving(
                    self@.source_base,
                    msg@,
                ),
                None => self@.parts().len() == 0,
            },
    {
        let parts = self.parts();
        assert(tui::plan::parts_view(parts@).len() == parts@.len());
        if parts.len() == 0 {
            None
        } else {
            Some(Weaving { parent: self.source_base, parts, message: msg.to_owned() })
        }
    }

    /// The picked hunks as one new commit **at the tip**. Its tree starts from HEAD's,
    /// so unrelated staged work is not swept in.
    pub fn tip_commit(&self, msg: &str) -> (r: Option<Weaving>)
        ensures
            match r {
                Some(w) => self@.parts().len() > 0 && w@ == self@.weaving(self@.head, msg@),
                None => self@.parts().len() == 0,
            },
    {
        let parts = self.parts();
        assert(tui::plan::parts_view(parts@).len() == parts@.len());
        if parts.len() == 0 {
            None
        } else {
            Some(Weaving { parent: self.head, parts, message: msg.to_owned() })
        }
    }
}

// ── beginning ───────────────────────────────────────────────────────────────

/// What is known of a commit, by its contents.
pub open spec fn info_view(c: Option<CommitInfo>) -> Option<CommitV> {
    match c {
        Some(c) => Some(c@),
        None => None,
    }
}

/// The new summary, with the body kept: a reword that ate the paragraphs below it
/// would lose what the user wrote.
fn keep_body(summary: &str, c: &Option<CommitInfo>) -> (s: String)
    ensures
        s@ == AppV::reworded(summary@, info_view(*c)),
{
    let body = match c {
        Some(c) => tui::body_of(&c.message),
        None => String::new(),
    };
    if body.as_str().is_empty() {
        summary.to_owned()
    } else {
        summary.to_owned().concat("\n\n").concat(&body)
    }
}

/// What stands after a step.
pub open spec fn stands(app: &App, job: Job, want: Want) -> NextV {
    NextV { app: app@, job: job@, want: want@ }
}

impl App {
    /// The picked hunks become a new commit, if that were applied.
    fn preview_split(&mut self) -> (r: (Job, Want))
        requires
            old(self)@.wf(),
            old(self)@.shape == ShapeV::Unchanged,
            old(self)@.source != Source::Files,
            old(self)@.splits(),
        ensures
            stands(final(self), r.0, r.1) == old(self)@.previewed(),
            r.1.fresh(),
    {
        if let Err(e) = self.check_split_is_the_whole_selection() {
            self.tell(e);
            return (Job::Idle, Want::Nothing);
        }
        match self.source {
            Source::Commit(src) => {
                let msg = self.split_message();
                match self.phantom_synthetic(&msg) {
                    Some(w) => (
                        Job::Split { goal: Goal::Try, named: src, rev: src },
                        Want::Weave(w),
                    ),
                    None => {
                        self.tell("pick hunks (Space) and route them with t first".to_owned());
                        (Job::Idle, Want::Nothing)
                    },
                }
            },
            _ => match self.tip_commit("preview") {
                Some(w) => (Job::Tip(Goal::Try), Want::Weave(w)),
                None => {
                    self.tell(
                        "pick hunks (Space) and route them to + new commit with t".to_owned(),
                    );
                    (Job::Idle, Want::Nothing)
                },
            },
        }
    }

    /// `p`: begin a dry run of what Enter would do.
    pub fn preview(&mut self) -> (r: (Job, Want))
        requires
            old(self)@.wf(),
        ensures
            final(self)@.wf(),
            stands(final(self), r.0, r.1) == old(self)@.previewed(),
            r.1.fresh(),
    {
        let shaped = match &self.shape {
            Shape::Unchanged => false,
            _ => true,
        };
        if shaped {
            return (Job::Shape(Goal::Try), self.want_stack());
        }
        if self.source == Source::Files {
            return match (self.cursor_file(), self.move_target) {
                (Some(path), Some(target)) => (
                    Job::Move { goal: Goal::Try, path, target },
                    Want::Status,
                ),
                _ => {
                    self.tell("pick a file and a destination (t) first".to_owned());
                    (Job::Idle, Want::Nothing)
                },
            };
        }
        if self.splits() {
            return self.preview_split();
        }
        let folds = self.folds();
        assert(absorb::folds_view(folds@).len() == folds@.len());
        if folds.len() == 0 {
            self.tell("select hunks (Space) and set targets (t) first".to_owned());
            return (Job::Idle, Want::Nothing);
        }
        (Job::Fold(Goal::Try), Want::Recipe { source: self.source_base, folds })
    }

    /// Enter, with a file on its way.
    fn execute_move(&mut self) -> (r: (Job, Want))
        requires
            old(self)@.wf(),
        ensures
            final(self)@.wf(),
            stands(final(self), r.0, r.1) == old(self)@.executed_move(),
            r.1.fresh(),
    {
        match (self.cursor_file(), self.move_target) {
            (Some(path), Some(target)) => {
                if self.pending_apply {
                    self.pending_apply = false;
                    (
                        Job::Move { goal: Goal::Apply, path, target },
                        Want::Request { rev: target, clean: true },
                    )
                } else {
                    (Job::Move { goal: Goal::Arm, path, target }, Want::Status)
                }
            },
            _ => {
                self.tell(
                    "pick a file (↑↓) and a destination (Tab to commits, then t)".to_owned(),
                );
                (Job::Idle, Want::Nothing)
            },
        }
    }

    /// Enter, with hunks picked.
    fn execute_hunks(&mut self) -> (r: (Job, Want))
        requires
            old(self)@.wf(),
        ensures
            final(self)@.wf(),
            stands(final(self), r.0, r.1) == old(self)@.executed_hunks(),
            r.1.fresh(),
    {
        if self.splits() {
            self.pending_apply = false;
            if let Err(e) = self.check_split_is_the_whole_selection() {
                self.tell(e);
                return (Job::Idle, Want::Nothing);
            }
            let what = match self.source {
                Source::Commit(src) => Ask::Split(src),
                _ => Ask::NewCommit,
            };
            let text = self.split_message();
            self.input = Some(Prompt { label: "message", text, what });
            return (Job::Idle, Want::Nothing);
        }
        if !self.pending_apply {
            if self.rewrite_span() == 0 {
                self.tell("nothing selected to apply".to_owned());
                return (Job::Idle, Want::Nothing);
            }
            let folds = self.folds();
            self.pending_apply = true;
            return (Job::Fold(Goal::Arm), Want::Recipe { source: self.source_base, folds });
        }
        let folds = self.folds();
        assert(absorb::folds_view(folds@).len() == folds@.len());
        self.pending_apply = false;
        if folds.len() == 0 {
            self.tell("nothing selected to apply".to_owned());
            return (Job::Idle, Want::Nothing);
        }
        (Job::Fold(Goal::Apply), Want::Recipe { source: self.source_base, folds })
    }

    /// Enter: the first press reports scope, the second applies.
    pub fn execute(&mut self) -> (r: (Job, Want))
        requires
            old(self)@.wf(),
        ensures
            final(self)@.wf(),
            stands(final(self), r.0, r.1) == old(self)@.executed(),
            r.1.fresh(),
    {
        let shaped = match &self.shape {
            Shape::Unchanged => false,
            _ => true,
        };
        if shaped {
            let goal = if self.pending_apply {
                Goal::Apply
            } else {
                Goal::Arm
            };
            return (Job::Shape(goal), self.want_stack());
        }
        if self.source == Source::Files {
            self.execute_move()
        } else {
            self.execute_hunks()
        }
    }

    /// Enter in the prompt: begin what it was asking for.
    pub fn submit_prompt(&mut self) -> (r: (Job, Want))
        requires
            old(self)@.wf(),
        ensures
            final(self)@.wf(),
            stands(final(self), r.0, r.1) == old(self)@.submitted(),
            r.1.fresh(),
    {
        let p = match self.input.take() {
            Some(p) => p,
            None => {
                return (Job::Idle, Want::Nothing);
            },
        };
        let text = text::trim(&p.text);
        if text.as_str().is_empty() {
            self.tell("empty message — nothing done".to_owned());
            return (Job::Idle, Want::Nothing);
        }
        match p.what {
            Ask::Reword(rev) => {
                return (Job::Reword { rev, text }, Want::Request { rev, clean: false });
            },
            Ask::Split(named) => {
                if let Source::Commit(rev) = self.source {
                    if let Some(w) = self.phantom_synthetic(&text) {
                        return (Job::Split { goal: Goal::Apply, named, rev }, Want::Weave(w));
                    }
                }
            },
            Ask::Filter => {
                let v = self.visible_files();
                assert(text::texts(v@).len() == v@.len());
                self.status = text::decimal(v.len()).concat(" file(s) match \"").concat(
                    &text,
                ).concat("\" — / to change it");
                return (Job::Idle, Want::Nothing);
            },
            Ask::NewCommit => {
                if let Some(w) = self.tip_commit(&text) {
                    return (Job::Tip(Goal::Apply), Want::Weave(w));
                }
            },
        }
        self.tell("not applied: nothing routed to the new commit".to_owned());
        (Job::Idle, Want::Nothing)
    }
}

// ── going on ────────────────────────────────────────────────────────────────

impl App {
    /// A shape edit has its plan.
    fn shape_planned(&mut self, goal: Goal, plan: Result<Shaped, Error>) -> (r: (Job, Want))
        requires
            old(self)@.wf(),
        ensures
            final(self)@.wf(),
            stands(final(self), r.0, r.1) == match (recipe::shaped_view(plan), goal) {
                (Err(e), Goal::Try) => stop(old(self)@.say(e.message())),
                (Err(e), _) => stop(old(self)@.disarmed().say(e.message())),
                (Ok(p), Goal::Try) => wait(old(self)@, JobV::ShapeFrom(goal, p), WantV::Branch),
                (Ok(p), Goal::Arm) => stop(
                    old(self)@.armed().say(
                        old(self)@.shape.summary() + " — rewrite "@ + text::decimal_of(
                            p.order.len(),
                        ) + " commit(s) on "@ + old(self)@.short_branch() + sign_note(
                            signed_among(old(self)@.commits, p.order),
                        ) + " · Enter again to apply · Esc: cancel"@,
                    ),
                ),
                (Ok(p), Goal::Apply) => wait(
                    old(self)@.disarmed(),
                    JobV::ShapeFrom(goal, p),
                    WantV::Branch,
                ),
            },
            r.1.fresh(),
    {
        let plan = match plan {
            Ok(p) => p,
            Err(e) => {
                if goal != Goal::Try {
                    self.pending_apply = false;
                }
                self.tell(e.message());
                return (Job::Idle, Want::Nothing);
            },
        };
        match goal {
            Goal::Try => (Job::ShapeFrom(goal, plan), Want::Branch),
            Goal::Arm => {
                self.status = self.shape_summary().concat(" — rewrite ").concat(
                    &text::decimal(plan.order.len()),
                ).concat(" commit(s) on ").concat(self.short_branch()).concat(
                    &sign_text(count_signed(&self.commits, &plan.order)),
                ).concat(" · Enter again to apply · Esc: cancel");
                self.pending_apply = true;
                (Job::Idle, Want::Nothing)
            },
            Goal::Apply => {
                self.pending_apply = false;
                (Job::ShapeFrom(goal, plan), Want::Branch)
            },
        }
    }

    /// A rewrite does not come about.
    fn not_reshaped(&mut self, goal: Goal, e: Error)
        requires
            old(self)@.wf(),
        ensures
            final(self)@.wf(),
            final(self)@ == old(self)@.not_reshaped(goal, e@),
    {
        if goal == Goal::Apply {
            self.tell("not applied: ".to_owned().concat(&e.message()));
        } else {
            self.tell("conflict: ".to_owned().concat(&e.message()));
        }
    }

    /// See [`AppV::shape_opts`].
    fn shape_opts(&self, goal: Goal) -> (o: Opts)
        ensures
            o == self@.shape_opts(goal),
    {
        if goal == Goal::Apply {
            self.opts
        } else {
            self.dry()
        }
    }

    /// A shape edit with its plan made goes on.
    fn shape_from(&mut self, goal: Goal, plan: Shaped, news: News) -> (r: (Job, Want))
        requires
            old(self)@.wf(),
        ensures
            final(self)@.wf(),
            stands(final(self), r.0, r.1) == old(self)@.shaping_from(goal, plan@, news@),
            r.1.fresh(),
    {
        reveal(AppV::shaping_from);
        match news {
            News::Branch(Err(e)) => {
                self.not_reshaped(goal, e);
                (Job::Idle, Want::Nothing)
            },
            News::Branch(Ok(branch)) => {
                let opts = self.shape_opts(goal);
                let r = ops::shape(branch, plan, &self.shape_msg(), false, &opts);
                (Job::Shape(goal), Want::Rewrite(r))
            },
            _ => (Job::Idle, Want::Nothing),
        }
    }

    /// A shape edit goes on.
    fn shape_on(&mut self, goal: Goal, news: News) -> (r: (Job, Want))
        requires
            old(self)@.wf(),
        ensures
            final(self)@.wf(),
            stands(final(self), r.0, r.1) == old(self)@.shaping(goal, news@),
            r.1.fresh(),
    {
        reveal(AppV::shaping);
        match news {
            News::Stack(Err(e)) => {
                return self.shape_planned(goal, Err(e));
            },
            News::Stack(Ok(s)) => {
                let plan = self.shape_plan(&s);
                return self.shape_planned(goal, plan);
            },
            News::Outcome(Ok((o, _))) => {
                if goal == Goal::Apply {
                    self.applied = true;
                    self.tell(moved_to(&o).concat(" · undo: git-transplant undo"));
                } else {
                    let text = self.would_move(&o).concat(" (").concat(
                        &self.shape_summary(),
                    ).concat(")");
                    self.tell(text);
                }
            },
            News::Outcome(Err(f)) => self.not_reshaped(goal, f.error),
            _ => {},
        }
        (Job::Idle, Want::Nothing)
    }

    /// Arm a file's move.
    fn arm_move(&mut self, path: &str, target: Oid, signed: usize)
        requires
            old(self)@.wf(),
        ensures
            final(self)@.wf(),
            final(self)@ == old(self)@.armed_move(path@, target, signed as nat),
    {
        self.status = "move ".to_owned().concat(path).concat(" → ").concat(
            &target.short(),
        ).concat(" on ").concat(self.short_branch()).concat(&sign_text(signed)).concat(
            " — Enter again to apply · any key: cancel",
        );
        self.pending_apply = true;
    }

    /// A file's move fails: it is armed all the same, so that the second press says
    /// why.
    fn move_fails(&mut self, goal: Goal, path: &str, target: Oid, e: Error) -> (r: (Job, Want))
        requires
            old(self)@.wf(),
        ensures
            final(self)@.wf(),
            stands(final(self), r.0, r.1) == if goal == Goal::Arm {
                stop(old(self)@.armed_move(path@, target, 0))
            } else {
                stop(old(self)@.say(e@.message()))
            },
            r.1.fresh(),
    {
        if goal == Goal::Arm {
            self.arm_move(path, target, 0);
        } else {
            self.tell(e.message());
        }
        (Job::Idle, Want::Nothing)
    }

    /// A file's move goes on.
    fn move_on(&mut self, goal: Goal, path: String, target: Oid, news: News) -> (r: (Job, Want))
        requires
            old(self)@.wf(),
        ensures
            final(self)@.wf(),
            stands(final(self), r.0, r.1) == old(self)@.moving(goal, path@, target, news@),
            r.1.fresh(),
    {
        reveal(AppV::moving);
        if goal == Goal::Apply {
            return match news {
                News::Request(Err(e)) => self.move_fails(goal, &path, target, e),
                News::Request(Ok(on)) => {
                    let want = Want::Move { path: path.clone(), target: on.rev, head: on.head };
                    (Job::MoveAt { path, target, on }, want)
                },
                _ => (Job::Idle, Want::Nothing),
            };
        }
        match news {
            News::Statuses(Err(e)) => {
                return self.move_fails(goal, &path, target, e);
            },
            News::Statuses(Ok(v)) => {
                if let Err(e) = ops::require_fully_clean(&v) {
                    return self.move_fails(goal, &path, target, e);
                }
                let want = Want::Move { path: path.clone(), target, head: self.head };
                return (Job::Move { goal, path, target }, want);
            },
            News::Plan(Err(e)) => {
                return self.move_fails(goal, &path, target, e);
            },
            News::Plan(Ok(plan)) => {
                let want = if goal == Goal::Try {
                    let r = ops::mv(self.branch.clone(), plan, &path, target, &self.opts);
                    Want::Rewrite(r.for_trial())
                } else {
                    Want::Range { base: plan.base, tip: plan.tip }
                };
                return (Job::Move { goal, path, target }, want);
            },
            News::Stack(r) => {
                if goal == Goal::Arm {
                    let n: usize = match r {
                        Ok(s) => count_signed_in(&s),
                        Err(_) => 0,
                    };
                    self.arm_move(&path, target, n);
                }
            },
            News::Outcome(Ok((o, _))) => {
                let text = self.would_move(&o);
                self.tell(text);
            },
            News::Outcome(Err(f)) => {
                self.tell("conflict: ".to_owned().concat(&f.error.message()));
            },
            _ => {},
        }
        (Job::Idle, Want::Nothing)
    }

    /// A file's move that is applied goes on.
    fn move_at_on(&mut self, path: String, target: Oid, on: Request, news: News) -> (r: (
        Job,
        Want,
    ))
        requires
            old(self)@.wf(),
        ensures
            final(self)@.wf(),
            stands(final(self), r.0, r.1) == old(self)@.moving_at(path@, target, on@, news@),
            r.1.fresh(),
    {
        reveal(AppV::moving_at);
        match news {
            News::Plan(Err(e)) => {
                self.tell(e.message());
            },
            News::Plan(Ok(plan)) => {
                let r = ops::mv(on.branch.clone(), plan, &path, on.rev, &self.opts);
                return (Job::MoveAt { path, target, on }, Want::Rewrite(r));
            },
            News::Outcome(Ok((o, _))) => {
                self.applied = true;
                self.tell(
                    "moved ".to_owned().concat(&path).concat(" → ").concat(
                        &target.short(),
                    ).concat("; ").concat(&moved_to(&o)).concat(" · undo: git-transplant undo"),
                );
            },
            News::Outcome(Err(f)) => {
                self.tell(f.error.message());
            },
            _ => {},
        }
        (Job::Idle, Want::Nothing)
    }

    /// State the scope of a fold.
    fn arm_fold(&mut self, dropped: &Vec<Oid>)
        requires
            old(self)@.wf(),
        ensures
            final(self)@.wf(),
            final(self)@ == old(self)@.armed_fold(dropped@),
    {
        let n = self.rewrite_span();
        self.status = "rewrite ".to_owned().concat(&text::decimal(n)).concat(
            " commit(s) on ",
        ).concat(self.short_branch()).concat(&drop_text(dropped)).concat(
            &sign_text(count_signed_rows(&self.commits, n)),
        ).concat(" — Enter again to apply · Esc: cancel");
    }

    /// The rewrite that folds the picked hunks.
    fn fold_rewrite(&self, goal: Goal, recipe: Recipe, base: Option<Oid>) -> (w: Want)
        ensures
            w@ == WantV::Rewrite(self@.fold_rewrite(goal, recipe@, base)),
            w.fresh(),
    {
        let r = Rewrite::new(
            self.branch.clone(),
            base,
            self.head,
            None,
            recipe,
            true,
            "transplant: tui fold".to_owned(),
            false,
            &self.opts,
        );
        if goal != Goal::Apply {
            Want::Rewrite(r.for_trial())
        } else {
            let paths = if self.source == Source::Unstaged {
                self.picked_paths()
            } else {
                Vec::new()
            };
            assert(self.source != Source::Unstaged ==> text::texts(paths@) =~= Seq::empty());
            Want::Rewrite(r.quietly(paths))
        }
    }

    /// What came of a fold.
    fn folded(&mut self, goal: Goal, o: Outcome, index: Option<String>)
        requires
            old(self)@.wf(),
        ensures
            final(self)@.wf(),
            stop(final(self)@) == old(self)@.folding(
                goal,
                NewsV::Outcome(Ok((o@, crate::opt_text(index)))),
            ),
    {
        reveal(AppV::folding);
        if goal == Goal::Arm {
            self.arm_fold(&o.dropped);
        } else if o.new_tip == self.head {
            self.tell("no change — targets already hold these hunks".to_owned());
        } else if goal == Goal::Try {
            let text = self.would_move(&o).concat(" · ").concat(&self.routing_summary());
            self.tell(text);
        } else {
            self.applied = true;
            self.tell(
                moved_to(&o).concat(&restack_text(&o)).concat(&index_text(&index)).concat(
                    " · undo: git-transplant undo",
                ),
            );
        }
    }

    /// A fold goes on.
    fn fold_on(&mut self, goal: Goal, news: News) -> (r: (Job, Want))
        requires
            old(self)@.wf(),
        ensures
            final(self)@.wf(),
            stands(final(self), r.0, r.1) == old(self)@.folding(goal, news@),
            r.1.fresh(),
    {
        reveal(AppV::folding);
        let none: Vec<Oid> = Vec::new();
        assert(none@ =~= Seq::empty());
        match news {
            News::Recipe(Err(e)) => match goal {
                Goal::Try => self.tell("preview error: ".to_owned().concat(&e.message())),
                Goal::Arm => self.arm_fold(&none),
                Goal::Apply => self.tell("error: ".to_owned().concat(&e.message())),
            },
            News::Recipe(Ok(r)) => {
                return match self.oldest_touched() {
                    Some(i) => {
                        assert(self@.commits[i as int] == self.commits@[i as int]@);
                        (Job::FoldFrom(goal, r), Want::Commit(self.commits[i].oid))
                    },
                    None => (Job::Fold(goal), self.fold_rewrite(goal, r, None)),
                };
            },
            News::Outcome(Ok((o, index))) => self.folded(goal, o, index),
            News::Outcome(Err(f)) => match goal {
                Goal::Arm => self.arm_fold(&none),
                Goal::Try => self.tell("conflict: ".to_owned().concat(&f.error.message())),
                Goal::Apply => if f.replaying {
                    self.tell("conflict, not applied: ".to_owned().concat(&f.error.message()));
                } else {
                    self.tell("promote failed: ".to_owned().concat(&f.error.message()));
                },
            },
            _ => {},
        }
        (Job::Idle, Want::Nothing)
    }

    /// A fold with its recipe made goes on.
    fn fold_from(&mut self, goal: Goal, recipe: Recipe, news: News) -> (r: (Job, Want))
        requires
            old(self)@.wf(),
        ensures
            final(self)@.wf(),
            stands(final(self), r.0, r.1) == old(self)@.folding_from(goal, recipe@, news@),
            r.1.fresh(),
    {
        reveal(AppV::folding_from);
        match news {
            News::Commit(c) => {
                let base = match c {
                    Some(c) => if c.parents.len() == 0 {
                        None
                    } else {
                        Some(c.parents[0])
                    },
                    None => None,
                };
                (Job::Fold(goal), self.fold_rewrite(goal, recipe, base))
            },
            _ => (Job::Idle, Want::Nothing),
        }
    }

    /// A split fails.
    fn unsplit(&mut self, goal: Goal, e: Error) -> (r: (Job, Want))
        requires
            old(self)@.wf(),
        ensures
            final(self)@.wf(),
            stands(final(self), r.0, r.1) == old(self)@.unsplit(goal, e@),
            r.1.fresh(),
    {
        if goal == Goal::Apply {
            self.tell("not applied: ".to_owned().concat(&e.message()));
        } else {
            self.tell(e.message());
        }
        (Job::Idle, Want::Nothing)
    }

    /// A split goes on.
    fn split_on(&mut self, goal: Goal, named: Oid, rev: Oid, news: News) -> (r: (Job, Want))
        requires
            old(self)@.wf(),
        ensures
            final(self)@.wf(),
            stands(final(self), r.0, r.1) == old(self)@.splitting(goal, named, rev, news@),
            r.1.fresh(),
    {
        reveal(AppV::splitting);
        match news {
            News::Woven(Ok(first)) => (
                Job::SplitAt { goal, named, rev, first },
                self.want_stack(),
            ),
            News::Woven(Err(e)) => self.unsplit(goal, e),
            _ => (Job::Idle, Want::Nothing),
        }
    }

    /// A split with its new commit made goes on.
    fn split_at_on(&mut self, goal: Goal, named: Oid, rev: Oid, first: Oid, news: News) -> (r: (
        Job,
        Want,
    ))
        requires
            old(self)@.wf(),
        ensures
            final(self)@.wf(),
            stands(final(self), r.0, r.1) == old(self)@.splitting_at(
                goal,
                named,
                rev,
                first,
                news@,
            ),
            r.1.fresh(),
    {
        reveal(AppV::splitting_at);
        match news {
            News::Stack(Err(e)) => self.unsplit(goal, e),
            News::Stack(Ok(s)) => match recipe::split_at(&s, self.head, rev, first) {
                Err(e) => self.unsplit(goal, e),
                Ok(plan) => (Job::SplitFrom { goal, named, rev, first, plan }, Want::Branch),
            },
            News::Outcome(Ok((o, _))) => {
                if goal == Goal::Apply {
                    return (
                        Job::Idle,
                        Want::Reload(
                            "split ".to_owned().concat(&named.short()).concat("; ").concat(
                                &moved_to(&o),
                            ).concat(" · undo: u"),
                        ),
                    );
                }
                let text = self.would_move(&o).concat(" (split into a new commit)");
                self.tell(text);
                (Job::Idle, Want::Nothing)
            },
            News::Outcome(Err(f)) => {
                self.not_reshaped(goal, f.error);
                (Job::Idle, Want::Nothing)
            },
            _ => (Job::Idle, Want::Nothing),
        }
    }

    /// A split with its plan made goes on.
    fn split_from(
        &mut self,
        goal: Goal,
        named: Oid,
        rev: Oid,
        first: Oid,
        plan: Shaped,
        news: News,
    ) -> (r: (Job, Want))
        requires
            old(self)@.wf(),
        ensures
            final(self)@.wf(),
            stands(final(self), r.0, r.1) == old(self)@.splitting_from(
                goal,
                named,
                rev,
                first,
                plan@,
                news@,
            ),
            r.1.fresh(),
    {
        reveal(AppV::splitting_from);
        match news {
            News::Branch(Err(e)) => {
                self.not_reshaped(goal, e);
                (Job::Idle, Want::Nothing)
            },
            News::Branch(Ok(branch)) => {
                let msg = if goal == Goal::Apply {
                    "transplant: tui split ".to_owned().concat(&named.short())
                } else {
                    "transplant: tui split".to_owned()
                };
                let opts = self.shape_opts(goal);
                let r = ops::shape(branch, plan, &msg, false, &opts);
                (Job::SplitAt { goal, named, rev, first }, Want::Rewrite(r))
            },
            _ => (Job::Idle, Want::Nothing),
        }
    }

    /// A new commit at the tip goes on.
    fn tip_on(&mut self, goal: Goal, news: News) -> (r: (Job, Want))
        requires
            old(self)@.wf(),
        ensures
            final(self)@.wf(),
            stands(final(self), r.0, r.1) == old(self)@.tipping(goal, news@),
            r.1.fresh(),
    {
        reveal(AppV::tipping);
        match news {
            News::Woven(Ok(tip)) => {
                if goal == Goal::Apply {
                    let p = ops::promote(
                        &self.branch,
                        tip,
                        self.head,
                        "transplant: tui commit",
                        false,
                    );
                    return (Job::TipAt(tip), Want::Promote(p));
                }
                let text = "clean — ".to_owned().concat(&text::decimal(self.picked())).concat(
                    " picked hunk(s) would become a NEW commit on top of ",
                ).concat(&self.head.short()).concat("; nothing below it moves");
                self.tell(text);
            },
            News::Woven(Err(e)) => {
                if goal == Goal::Apply {
                    self.tell("not applied: ".to_owned().concat(&e.message()));
                } else {
                    self.tell("error: ".to_owned().concat(&e.message()));
                }
            },
            _ => {},
        }
        (Job::Idle, Want::Nothing)
    }

    /// What is said of a new commit at the tip.
    fn committed(&self, tip: Oid, why: &Option<String>) -> (r: (Job, Want))
        ensures
            stands(self, r.0, r.1) == self@.committed(tip, crate::opt_text(*why)),
            r.1.fresh(),
    {
        let text = "committed ".to_owned().concat(&tip.short()).concat(" on ").concat(
            self.short_branch(),
        ).concat(&index_text(why)).concat(" · undo: u");
        (Job::Idle, Want::Reload(text))
    }

    /// A new commit at the tip with its commit made goes on.
    fn tip_at_on(&mut self, tip: Oid, news: News) -> (r: (Job, Want))
        requires
            old(self)@.wf(),
        ensures
            final(self)@.wf(),
            stands(final(self), r.0, r.1) == old(self)@.tipping_at(tip, news@),
            r.1.fresh(),
    {
        reveal(AppV::tipping_at);
        match news {
            News::Promoted(Err(e)) => {
                self.tell("not applied: ".to_owned().concat(&e.message()));
                (Job::Idle, Want::Nothing)
            },
            News::Promoted(Ok(_)) => if self.source == Source::Unstaged {
                let paths = self.picked_paths();
                (Job::TipAt(tip), Want::Refresh { tip, paths })
            } else {
                self.committed(tip, &None)
            },
            News::Refreshed(why) => self.committed(tip, &why),
            _ => (Job::Idle, Want::Nothing),
        }
    }

    /// A reword begins.
    fn reword_on(&mut self, rev: Oid, text: String, news: News) -> (r: (Job, Want))
        requires
            old(self)@.wf(),
        ensures
            final(self)@.wf(),
            stands(final(self), r.0, r.1) == old(self)@.rewording_on(rev, text@, news@),
            r.1.fresh(),
    {
        reveal(AppV::rewording_on);
        match news {
            News::Request(Err(e)) => {
                self.tell("not applied: ".to_owned().concat(&e.message()));
                (Job::Idle, Want::Nothing)
            },
            News::Request(Ok(on)) => (Job::RewordAt { rev, text, on }, Want::Commit(rev)),
            _ => (Job::Idle, Want::Nothing),
        }
    }

    /// A reword on the branch that HEAD is on goes on.
    #[verifier::rlimit(30)]
    fn reword_at_on(&mut self, rev: Oid, text: String, on: Request, news: News) -> (r: (
        Job,
        Want,
    ))
        requires
            old(self)@.wf(),
        ensures
            final(self)@.wf(),
            stands(final(self), r.0, r.1) == old(self)@.rewording_at(rev, text@, on@, news@),
            r.1.fresh(),
    {
        reveal(AppV::rewording_at);
        match news {
            News::Commit(c) => {
                assert(news@ == NewsV::Commit(info_view(c)));
                let message = keep_body(&text, &c);
                let want = Want::Reword { rev: on.rev, head: on.head, message };
                (Job::RewordAt { rev, text, on }, want)
            },
            News::Plan(Err(e)) => {
                self.tell("not applied: ".to_owned().concat(&e.message()));
                (Job::Idle, Want::Nothing)
            },
            News::Plan(Ok(plan)) => {
                let r = ops::reword(on.branch.clone(), plan, on.rev, &self.opts);
                (Job::RewordAt { rev, text, on }, Want::Rewrite(r))
            },
            News::Outcome(Ok((o, _))) => (
                Job::Idle,
                Want::Reload(
                    "reworded ".to_owned().concat(&rev.short()).concat("; ").concat(
                        &moved_to(&o),
                    ).concat(" · undo: u"),
                ),
            ),
            News::Outcome(Err(f)) => {
                self.tell("not applied: ".to_owned().concat(&f.error.message()));
                (Job::Idle, Want::Nothing)
            },
            _ => (Job::Idle, Want::Nothing),
        }
    }

    /// Go on with a job after the news, and say what it wants next.
    pub fn go_on(&mut self, job: Job, news: News) -> (r: (Job, Want))
        requires
            old(self)@.wf(),
        ensures
            final(self)@.wf(),
            stands(final(self), r.0, r.1) == old(self)@.went_on(job@, news@),
            r.1.fresh(),
    {
        match job {
            Job::Idle => (Job::Idle, Want::Nothing),
            Job::Shape(goal) => self.shape_on(goal, news),
            Job::ShapeFrom(goal, p) => self.shape_from(goal, p, news),
            Job::Move { goal, path, target } => self.move_on(goal, path, target, news),
            Job::MoveAt { path, target, on } => self.move_at_on(path, target, on, news),
            Job::Fold(goal) => self.fold_on(goal, news),
            Job::FoldFrom(goal, r) => self.fold_from(goal, r, news),
            Job::Split { goal, named, rev } => self.split_on(goal, named, rev, news),
            Job::SplitAt { goal, named, rev, first } => self.split_at_on(
                goal,
                named,
                rev,
                first,
                news,
            ),
            Job::SplitFrom { goal, named, rev, first, plan } => self.split_from(
                goal,
                named,
                rev,
                first,
                plan,
                news,
            ),
            Job::Tip(goal) => self.tip_on(goal, news),
            Job::TipAt(tip) => self.tip_at_on(tip, news),
            Job::Reword { rev, text } => self.reword_on(rev, text, news),
            Job::RewordAt { rev, text, on } => self.reword_at_on(rev, text, on, news),
        }
    }
}

} // verus!
