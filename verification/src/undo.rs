//! Walking the last run back: the branch, and the siblings that went along.
//!
//! A branch's own log is enough for this. The tool only ever moves existing
//! branches, and every move writes an entry, so the log is a complete record of
//! what was done. An undo is recorded in the same way, which makes a second undo a
//! redo.

use crate::oid::Oid;
use crate::ops;
use crate::ops::{
    Action, ActionV, Event, EventV, LogEntry, LogV, Promoting, Promotion, PromotionV, RefInfo,
    RefV, Verb,
};
use crate::rewrite::{Failure, Outcome, OutcomeV, Step};
use crate::text;
use crate::{Error, ErrorV};
use vstd::prelude::*;

verus! {

/// The mark of the tool's own log entries.
pub open spec fn ours(message: Seq<char>) -> bool {
    text::begins(message, "transplant: "@)
}

/// A log by its contents.
pub open spec fn log_view(v: Seq<LogEntry>) -> Seq<LogV> {
    v.map_values(|l: LogEntry| l@)
}

/// An entry of the tool's history on a branch.
#[derive(Debug)]
pub struct UndoEntry {
    pub old: Oid,
    pub new: Oid,
    pub message: String,
    /// Is it the one that an undo would reverse?
    pub next: bool,
}

/// The tool's own entries of a log, newest first.
pub open spec fn own_entries(log: Seq<LogV>) -> Seq<LogV>
    decreases log.len(),
{
    if log.len() == 0 {
        log
    } else {
        let front = own_entries(log.drop_last());
        if ours(log.last().message) {
            front.push(log.last())
        } else {
            front
        }
    }
}

/// The branch's history of runs, newest first, with the entry marked that an undo
/// would reverse.
pub fn undo_list(log: &Vec<LogEntry>) -> (v: Vec<UndoEntry>)
    ensures
        v@.len() == own_entries(log_view(log@)).len(),
        forall|i: int|
            0 <= i < v@.len() ==> {
                let e = #[trigger] v@[i];
                (LogV { old: e.old, new: e.new, message: e.message@ }) == own_entries(
                    log_view(log@),
                )[i] && e.next == (i == 0)
            },
{
    let ghost all = log_view(log@);
    let mut v: Vec<UndoEntry> = Vec::new();
    let mut i: usize = 0;
    while i < log.len()
        invariant
            all == log_view(log@),
            0 <= i <= log@.len(),
            v@.len() == own_entries(all.take(i as int)).len(),
            forall|j: int|
                0 <= j < v@.len() ==> {
                    let e = #[trigger] v@[j];
                    (LogV { old: e.old, new: e.new, message: e.message@ }) == own_entries(
                        all.take(i as int),
                    )[j] && e.next == (j == 0)
                },
        decreases log@.len() - i,
    {
        assert(all.take(i + 1).drop_last() =~= all.take(i as int));
        assert(all.take(i + 1).last() == log@[i as int]@);
        if text::starts_with(&log[i].message, "transplant: ") {
            let next = v.len() == 0;
            v.push(
                UndoEntry {
                    old: log[i].old,
                    new: log[i].new,
                    message: log[i].message.clone(),
                    next,
                },
            );
        }
        i += 1;
    }
    assert(all.take(i as int) =~= all);
    v
}

/// The newest of the tool's own entries.
pub open spec fn newest(log: Seq<LogV>) -> Option<LogV> {
    let own = own_entries(log);
    if own.len() == 0 {
        None
    } else {
        Some(own[0])
    }
}

/// The log message of the undo of a run.
pub open spec fn undo_message(message: Seq<char>) -> Seq<char> {
    "transplant: undo ("@ + message + ")"@
}

/// The entry that the undo writes for the branch.
pub open spec fn undone(e: LogV) -> LogV {
    LogV { old: e.new, new: e.old, message: undo_message(e.message) }
}

/// Where the sibling goes when the run of entry `e` is walked back: where it was
/// before it went along, if that is the last thing that happened to it.
pub open spec fn goes_back(r: RefV, e: LogV) -> Option<Oid> {
    match r.log {
        Some(l) => if r.branch && l.new == r.target && l.message == ops::restack_message(
            e.message,
            e.old,
            e.new,
        ) {
            Some(l.old)
        } else {
            None
        },
        None => None,
    }
}

/// The entry that the undo writes for a sibling that goes back to `to`.
pub open spec fn sibling_undone(r: RefV, e: LogV, to: Oid) -> LogV {
    LogV {
        old: r.target,
        new: to,
        message: ops::restack_message(undo_message(e.message), e.new, e.old),
    }
}

proof fn lemma_newest_is_first(e: LogV, log: Seq<LogV>)
    requires
        ours(e.message),
    ensures
        own_entries(seq![e] + log).len() > 0,
        own_entries(seq![e] + log)[0] == e,
    decreases log.len(),
{
    let all = seq![e] + log;
    if log.len() == 0 {
        assert(all.drop_last() =~= Seq::empty());
        assert(own_entries(Seq::<LogV>::empty()) =~= Seq::empty());
    } else {
        lemma_newest_is_first(e, log.drop_last());
        assert(all.drop_last() =~= seq![e] + log.drop_last());
    }
}

/// Undoing an undo is a redo: whatever the log held before, the entry that the undo
/// wrote is the one that the next undo walks back, and that moves the branch, and every
/// sibling that went back, to where the run had put it.
pub proof fn undo_of_an_undo_is_a_redo(r: RefV, e: LogV, log: Seq<LogV>)
    ensures
        newest(seq![undone(e)] + log) == Some(undone(e)),
        undone(e).old == e.new,
        undone(e).new == e.old,
        goes_back(r, e) matches Some(to) ==> goes_back(
            RefV { target: to, log: Some(sibling_undone(r, e, to)), ..r },
            undone(e),
        ) == Some(r.target),
{
    reveal_strlit("transplant: ");
    reveal_strlit("transplant: undo (");
    let m = undo_message(e.message);
    assert(m.subrange(0, 12) =~= "transplant: "@);
    lemma_newest_is_first(undone(e), log);
}

/// A message that begins as the tool's own do is one of them.
pub proof fn lemma_ours(message: Seq<char>)
    requires
        message.len() >= 12,
        message[0] == 't',
        message[1] == 'r',
        message[2] == 'a',
        message[3] == 'n',
        message[4] == 's',
        message[5] == 'p',
        message[6] == 'l',
        message[7] == 'a',
        message[8] == 'n',
        message[9] == 't',
        message[10] == ':',
        message[11] == ' ',
    ensures
        ours(message),
{
    reveal_strlit("transplant: ");
    assert(message.subrange(0, 12) =~= "transplant: "@);
}

/// Every operation is logged as the tool's own, so that an undo finds it.
pub proof fn every_operation_can_be_undone(c: Oid, path: Seq<char>, verb: Verb)
    ensures
        ours("transplant: fix into "@ + c.spec_short()),
        ours("transplant: move "@ + path + " to "@ + c.spec_short()),
        ours("transplant: reword "@ + c.spec_short()),
        ours("transplant: absorb staged change"@),
        ours(verb.spec_message(c)),
{
    reveal_strlit("transplant: fix into ");
    reveal_strlit("transplant: move ");
    reveal_strlit("transplant: reword ");
    reveal_strlit("transplant: absorb staged change");
    reveal_strlit("transplant: drop ");
    reveal_strlit("transplant: reorder ");
    reveal_strlit("transplant: squash ");
    reveal_strlit("transplant: split ");
    lemma_ours("transplant: fix into "@ + c.spec_short());
    lemma_ours("transplant: move "@ + path + " to "@ + c.spec_short());
    lemma_ours("transplant: reword "@ + c.spec_short());
    lemma_ours("transplant: absorb staged change"@);
    lemma_ours(verb.spec_message(c));
}

/// An undo puts the branch back: where a run moved the branch, and its log tells of the
/// move, the undo moves it the other way, and only from where the run had put it.
pub proof fn an_undo_puts_the_branch_back(p: PromotionV, log: Seq<LogV>, dry_run: bool)
    requires
        ours(p.message),
    ensures
        p.action(Promoting::Move) matches Some(ActionV::MoveRef { name, to, from, message }) && {
            let e = LogV { old: from, new: to, message };
            let u = UndoV { branch: name, entry: e, dry_run };
            &&& newest(seq![e] + log) == Some(e)
            &&& u.promotion().action(Promoting::Move) matches Some(back) && back
                == (ActionV::MoveRef { name, to: from, from: to, message: undo_message(message) })
        },
{
    lemma_newest_is_first(LogV { old: p.old_tip, new: p.new_tip, message: p.message }, log);
}

// ── the undo as a conversation ──────────────────────────────────────────────

/// What is walked back.
#[verifier::ext_equal]
pub struct UndoV {
    pub branch: Seq<char>,
    pub entry: LogV,
    pub dry_run: bool,
}

impl UndoV {
    pub open spec fn promotion(self) -> PromotionV {
        PromotionV {
            branch: self.branch,
            new_tip: self.entry.old,
            old_tip: self.entry.new,
            message: undo_message(self.entry.message),
            // An undo never writes the worktree: the undone change simply resurfaces
            // as an uncommitted edit.
            sync: false,
        }
    }
}

/// The siblings, and what was done about them so far.
#[derive(Debug)]
pub struct Back {
    pub refs: Vec<RefInfo>,
    pub restacked: Vec<String>,
    pub warnings: Vec<String>,
}

/// A [`Back`] by its contents.
#[verifier::ext_equal]
pub struct BackV {
    pub refs: Seq<RefV>,
    pub restacked: Seq<Seq<char>>,
    pub warnings: Seq<Seq<char>>,
}

impl View for Back {
    type V = BackV;

    open spec fn view(&self) -> BackV {
        BackV {
            refs: ops::refs_view(self.refs@),
            restacked: text::texts(self.restacked@),
            warnings: text::texts(self.warnings@),
        }
    }
}

impl BackV {
    /// What has to be done about the sibling at `i`.
    pub open spec fn action(self, u: UndoV, i: int) -> Option<ActionV> {
        let r = self.refs[i];
        match goes_back(r, u.entry) {
            Some(to) => if u.dry_run || r.elsewhere {
                None
            } else {
                Some(
                    ActionV::MoveRef {
                        name: r.name,
                        to,
                        from: r.target,
                        message: sibling_undone(r, u.entry, to).message,
                    },
                )
            },
            None => None,
        }
    }

    /// The sibling at `i` is dealt with, and nothing had to be done.
    pub open spec fn pass(self, u: UndoV, i: int) -> BackV {
        let r = self.refs[i];
        match goes_back(r, u.entry) {
            Some(to) => if r.elsewhere {
                BackV {
                    warnings: self.warnings.push(
                        r.short() + " is checked out in another worktree; left at "@
                            + r.target.spec_short(),
                    ),
                    ..self
                }
            } else {
                BackV { restacked: self.restacked.push(ops::moved_note(r, to)), ..self }
            },
            None => self,
        }
    }

    /// The sibling at `i` was to be moved, with this event.
    pub open spec fn after(self, u: UndoV, i: int, e: EventV) -> BackV {
        let r = self.refs[i];
        match (goes_back(r, u.entry), e) {
            (Some(to), EventV::Done) => BackV {
                restacked: self.restacked.push(ops::moved_note(r, to)),
                ..self
            },
            (Some(to), _) => BackV {
                warnings: self.warnings.push(
                    r.short() + " could not be restacked: "@ + ops::reason(e),
                ),
                ..self
            },
            (None, _) => self,
        }
    }

    /// The siblings from `i` on are dealt with, up to the first that is to be moved.
    pub open spec fn onward(self, u: UndoV, i: int) -> (BackV, int)
        decreases self.refs.len() - i,
    {
        if i < 0 || i >= self.refs.len() || self.action(u, i) is Some {
            (self, i)
        } else {
            self.pass(u, i).onward(u, i + 1)
        }
    }

    pub open spec fn outcome(self, u: UndoV) -> OutcomeV {
        OutcomeV {
            branch: u.branch,
            old_tip: u.entry.new,
            new_tip: u.entry.old,
            warnings: self.warnings,
            restacked: self.restacked,
            dropped: Seq::empty(),
        }
    }
}

/// Where an undo stands.
#[verifier::ext_equal]
pub enum UndoStageV {
    Listing,
    Promoting { back: BackV, at: Promoting },
    Restacking { back: BackV, i: int },
    Over,
}

impl UndoStageV {
    /// What is to be done at this stage.
    pub open spec fn action(self, u: UndoV) -> Option<ActionV> {
        match self {
            UndoStageV::Listing => Some(ActionV::ListRefs),
            UndoStageV::Promoting { at, .. } => u.promotion().action(at),
            UndoStageV::Restacking { back, i } => if 0 <= i < back.refs.len() {
                back.action(u, i)
            } else {
                None
            },
            UndoStageV::Over => None,
        }
    }
}

/// What follows once the promotion stands at `at`.
pub open spec fn promoted(back: BackV, at: Promoting) -> UndoStageV {
    if at == Promoting::Over {
        UndoStageV::Restacking { back, i: 0 }
    } else {
        UndoStageV::Promoting { back, at }
    }
}

/// How an undo goes on from `s` after the event `e`.
pub open spec fn next_stage(u: UndoV, s: UndoStageV, e: EventV) -> Result<UndoStageV, ErrorV> {
    match s {
        UndoStageV::Listing => match e {
            EventV::Refs(refs) => if !ops::listed(refs, u.branch) {
                Err(
                    ErrorV::Empty(
                        "the ref listing is incomplete: it lacks "@ + u.branch
                            + " — refusing to rewrite"@,
                    ),
                )
            } else {
                let back = BackV {
                    refs: ops::others(refs, u.branch),
                    restacked: Seq::empty(),
                    warnings: Seq::empty(),
                };
                Ok(
                    if u.dry_run {
                        UndoStageV::Restacking { back, i: 0 }
                    } else {
                        promoted(back, u.promotion().start())
                    },
                )
            },
            _ => Err(ErrorV::Git(ops::reason(e))),
        },
        UndoStageV::Promoting { back, at } => match u.promotion().after(at, e) {
            Ok(p) => Ok(promoted(back, p)),
            Err(f) => Err(f),
        },
        UndoStageV::Restacking { back, i } => Ok(
            UndoStageV::Restacking { back: back.after(u, i, e), i: i + 1 },
        ),
        UndoStageV::Over => Ok(s),
    }
}

/// A dry undo moves nothing; an undo never checks anything out.
pub proof fn an_undo_never_writes_the_worktree(u: UndoV, s: UndoStageV, e: EventV)
    requires
        s matches UndoStageV::Promoting { at, .. } ==> at != Promoting::Checkout && !u.dry_run,
    ensures
        s.action(u) matches Some(a) ==> !(a is Checkout) && !(a is RefreshIndex) && (u.dry_run
            ==> !a.writes()),
        next_stage(u, s, e) matches Ok(UndoStageV::Promoting { at, .. }) ==> at
            != Promoting::Checkout && !u.dry_run,
{
}

#[derive(Debug)]
enum Phase {
    List,
    Promote(Back, Promoting),
    Restack(Back, usize),
    Over,
}

/// An undo in progress.
#[derive(Debug)]
pub struct Undo {
    branch: String,
    entry: LogEntry,
    dry_run: bool,
    phase: Phase,
}

fn goes_back_to(r: &RefInfo, e: &LogEntry) -> (to: Option<Oid>)
    ensures
        to == goes_back(r@, e@),
{
    match &r.log {
        None => None,
        Some(l) => {
            let mark = ops::restacking(&e.message, e.old, e.new);
            if r.branch && l.new == r.target && text::same_text(&l.message, &mark) {
                Some(l.old)
            } else {
                None
            }
        },
    }
}

/// Put the branch back where the newest of the tool's entries in its log found it.
/// It refuses if the branch is somewhere else by now.
pub fn undo(branch: &str, log: Vec<LogEntry>, current: Oid, dry_run: bool) -> (r: Result<Undo, Error>)
    ensures
        match newest(log_view(log@)) {
            None => r matches Err(e) && e@ == ErrorV::Empty(
                "no git-transplant entry in "@ + ops::last_part(branch@)
                    + "'s reflog — nothing to undo"@,
            ),
            Some(l) => if l.new != current {
                r matches Err(e) && e@ == ErrorV::Empty(
                    ops::last_part(branch@) + " has moved since `"@ + l.message + "` (now "@
                        + current.spec_short() + ", expected "@ + l.new.spec_short()
                        + "); refusing to undo"@,
                )
            } else {
                r matches Ok(u) && u.wf() && u.what() == (UndoV {
                    branch: branch@,
                    entry: l,
                    dry_run,
                }) && u.stage() == UndoStageV::Listing
            },
        },
{
    let mut own = undo_list(&log);
    if own.len() == 0 {
        return Err(
            Error::Empty(
                "no git-transplant entry in ".to_owned().concat(ops::short_branch(branch)).concat(
                    "'s reflog — nothing to undo",
                ),
            ),
        );
    }
    let first = own.swap_remove(0);
    let entry = LogEntry { old: first.old, new: first.new, message: first.message };
    if entry.new != current {
        return Err(
            Error::Empty(
                ops::short_branch(branch).to_owned().concat(" has moved since `").concat(
                    &entry.message,
                ).concat("` (now ").concat(&current.short()).concat(", expected ").concat(
                    &entry.new.short(),
                ).concat("); refusing to undo"),
            ),
        );
    }
    Ok(Undo { branch: branch.to_owned(), entry, dry_run, phase: Phase::List })
}

impl Undo {
    pub closed spec fn what(&self) -> UndoV {
        UndoV { branch: self.branch@, entry: self.entry@, dry_run: self.dry_run }
    }

    pub closed spec fn stage(&self) -> UndoStageV {
        match self.phase {
            Phase::List => UndoStageV::Listing,
            Phase::Promote(b, at) => UndoStageV::Promoting { back: b@, at },
            Phase::Restack(b, i) => UndoStageV::Restacking { back: b@, i: i as int },
            Phase::Over => UndoStageV::Over,
        }
    }

    pub closed spec fn wf(&self) -> bool {
        self.phase matches Phase::Restack(b, i) ==> i <= b@.refs.len()
    }

    fn promotion(&self) -> (p: Promotion)
        ensures
            p@ == self.what().promotion(),
    {
        let message = "transplant: undo (".to_owned().concat(&self.entry.message).concat(")");
        ops::promote(&self.branch, self.entry.old, self.entry.new, &message, false)
    }

    /// See [`BackV::onward`].
    fn onward(&self, back: &mut Back, i: usize) -> (n: usize)
        requires
            i <= old(back)@.refs.len(),
        ensures
            (final(back)@, n as int) == old(back)@.onward(self.what(), i as int),
            i <= n <= final(back)@.refs.len(),
    {
        let ghost u = self.what();
        let mut n: usize = i;
        while n < back.refs.len()
            invariant
                u == self.what(),
                i <= n <= back@.refs.len(),
                back@.onward(u, n as int) == old(back)@.onward(u, i as int),
            ensures
                i <= n <= back@.refs.len(),
                (back@, n as int) == old(back)@.onward(u, i as int),
            decreases back@.refs.len() - n,
        {
            let ghost before = back@;
            assert(before.refs[n as int] == back.refs@[n as int]@);
            let r = &back.refs[n];
            if let Some(to) = goes_back_to(r, &self.entry) {
                if r.elsewhere {
                    let note = ops::short_branch(&r.name).to_owned().concat(
                        " is checked out in another worktree; left at ",
                    ).concat(&r.target.short());
                    let ghost text = note@;
                    back.warnings.push(note);
                    assert(back@ =~= (BackV { warnings: before.warnings.push(text), ..before }));
                } else if self.dry_run {
                    let note = ops::moved(r, to);
                    let ghost text = note@;
                    back.restacked.push(note);
                    assert(back@ =~= (BackV { restacked: before.restacked.push(text), ..before }));
                } else {
                    break;
                }
            }
            n += 1;
        }
        n
    }

    /// Say what is needed next.
    pub fn next(&mut self) -> (step: Step)
        requires
            old(self).wf(),
        ensures
            final(self).wf(),
            final(self).what() == old(self).what(),
            ({
                let u = old(self).what();
                let at = match old(self).stage() {
                    UndoStageV::Restacking { back, i } => {
                        let (b, j) = back.onward(u, i);
                        UndoStageV::Restacking { back: b, i: j }
                    },
                    s => s,
                };
                match at.action(u) {
                    Some(a) => step matches Step::Act(x) && x@ == a && final(self).stage() == at,
                    None => final(self).stage() == UndoStageV::Over && match at {
                        UndoStageV::Restacking { back, .. } => step matches Step::Done(out, None)
                            && out@ == back.outcome(u),
                        _ => step is Fail,
                    },
                }
            }),
    {
        let mut phase = Phase::Over;
        std::mem::swap(&mut phase, &mut self.phase);
        match phase {
            Phase::List => {
                self.phase = Phase::List;
                Step::Act(Action::ListRefs)
            },
            Phase::Promote(back, at) => {
                let p = self.promotion();
                match p.action(at) {
                    Some(a) => {
                        self.phase = Phase::Promote(back, at);
                        Step::Act(a)
                    },
                    None => Step::Fail(
                        Failure {
                            replaying: false,
                            error: Error::Git("the undo is over".to_owned()),
                        },
                    ),
                }
            },
            Phase::Restack(back, i) => {
                let mut back = back;
                let ghost b0 = back@;
                proof {
                    lemma_onward_stops(b0, self.what(), i as int);
                }
                let j = self.onward(&mut back, i);
                if j < back.refs.len() {
                    assert(back@.refs[j as int] == back.refs@[j as int]@);
                    let r = &back.refs[j];
                    if let Some(to) = goes_back_to(r, &self.entry) {
                        let undo = "transplant: undo (".to_owned().concat(
                            &self.entry.message,
                        ).concat(")");
                        let a = Action::MoveRef {
                            name: r.name.clone(),
                            to,
                            from: r.target,
                            message: ops::restacking(&undo, self.entry.new, self.entry.old),
                        };
                        self.phase = Phase::Restack(back, j);
                        return Step::Act(a);
                    }
                }
                let dropped: Vec<Oid> = Vec::new();
                let out = Outcome {
                    branch: self.branch.clone(),
                    old_tip: self.entry.new,
                    new_tip: self.entry.old,
                    warnings: back.warnings,
                    restacked: back.restacked,
                    dropped,
                };
                assert(out@ =~= back@.outcome(self.what()));
                Step::Done(out, None)
            },
            Phase::Over => Step::Fail(
                Failure { replaying: false, error: Error::Git("the undo is over".to_owned()) },
            ),
        }
    }

    /// Hear what came of the action that was asked for. Gives the failure that ends
    /// the undo, if it does.
    pub fn react(&mut self, e: Event) -> (r: Option<Failure>)
        requires
            old(self).wf(),
            old(self).stage() matches UndoStageV::Restacking { back, i } ==> i < back.refs.len(),
        ensures
            final(self).wf(),
            final(self).what() == old(self).what(),
            match next_stage(old(self).what(), old(self).stage(), e@) {
                Ok(s) => r is None && final(self).stage() == s,
                Err(f) => r matches Some(x) && x.error@ == f && final(self).stage()
                    == UndoStageV::Over,
            },
    {
        let mut phase = Phase::Over;
        std::mem::swap(&mut phase, &mut self.phase);
        match phase {
            Phase::List => {
                let refs = match e {
                    Event::Refs(refs) => refs,
                    e => return Some(
                        Failure { replaying: false, error: Error::Git(ops::reason_of(e)) },
                    ),
                };
                let refs = match ops::sibling_refs(refs, &self.branch) {
                    Ok(v) => v,
                    Err(error) => return Some(Failure { replaying: false, error }),
                };
                let back = Back { refs, restacked: Vec::new(), warnings: Vec::new() };
                assert(back@ =~= (BackV {
                    refs: ops::refs_view(refs@),
                    restacked: Seq::empty(),
                    warnings: Seq::empty(),
                }));
                let at = self.promotion().start();
                if self.dry_run || at == Promoting::Over {
                    self.phase = Phase::Restack(back, 0);
                } else {
                    self.phase = Phase::Promote(back, at);
                }
                None
            },
            Phase::Promote(back, at) => {
                let p = self.promotion();
                match p.after(at, e) {
                    Ok(at) => {
                        if at == Promoting::Over {
                            self.phase = Phase::Restack(back, 0);
                        } else {
                            self.phase = Phase::Promote(back, at);
                        }
                        None
                    },
                    Err(error) => Some(Failure { replaying: false, error }),
                }
            },
            Phase::Restack(back, i) => {
                let mut back = back;
                let ghost before = back@;
                let n: usize = back.refs.len();
                assert(i < n);
                assert(before.refs[i as int] == back.refs@[i as int]@);
                let r = &back.refs[i];
                if let Some(to) = goes_back_to(r, &self.entry) {
                    match e {
                        Event::Done => {
                            let note = ops::moved(r, to);
                            let ghost text = note@;
                            back.restacked.push(note);
                            assert(back@ =~= (BackV {
                                restacked: before.restacked.push(text),
                                ..before
                            }));
                        },
                        e => {
                            let note = ops::short_branch(&r.name).to_owned().concat(
                                " could not be restacked: ",
                            ).concat(&ops::reason_of(e));
                            let ghost text = note@;
                            back.warnings.push(note);
                            assert(back@ =~= (BackV {
                                warnings: before.warnings.push(text),
                                ..before
                            }));
                        },
                    }
                }
                self.phase = Phase::Restack(back, i + 1);
                None
            },
            Phase::Over => None,
        }
    }
}

proof fn lemma_onward_stops(b: BackV, u: UndoV, i: int)
    requires
        0 <= i <= b.refs.len(),
    ensures
        ({
            let (c, j) = b.onward(u, i);
            &&& i <= j <= b.refs.len()
            &&& c.refs == b.refs
            &&& j < b.refs.len() ==> c.action(u, j) is Some
        }),
    decreases b.refs.len() - i,
{
    if i < b.refs.len() && b.action(u, i) is None {
        lemma_onward_stops(b.pass(u, i), u, i + 1);
    }
}

} // verus!
