//! The operations: replay a plan, and only on full success promote the branch ref
//! and carry the sibling branches along. Here are the decisions; a driver answers
//! the questions and performs the actions, one at a time.

use crate::engine;
use crate::engine::Recipe;
use crate::git::{FileFavor, Merge};
use crate::oid::Oid;
use crate::recipe::{Plan, PlanV, Shaped, ShapedV};
use crate::rewrite::{Rewrite, RewriteV, StageV};
use crate::store;
use crate::store::Known;
use crate::text;
use crate::{Error, ErrorV};
use vstd::prelude::*;

verus! {

// ── options and guards ──────────────────────────────────────────────────────

/// What every operation can be told.
#[derive(Clone, Copy, PartialEq, Eq, Structural, Debug)]
pub struct Opts {
    /// Ignore whitespace when merging.
    pub ignore_ws: bool,
    /// Resolve conflicting regions by this rule instead of aborting.
    pub favor: Option<FileFavor>,
    /// Do everything but the ref moves.
    pub dry_run: bool,
    /// Leave other branches that point into the rewritten range where they are.
    pub no_restack: bool,
}

impl Default for Opts {
    fn default() -> (o: Opts)
        ensures
            o == (Opts { ignore_ws: false, favor: None, dry_run: false, no_restack: false }),
    {
        Opts { ignore_ws: false, favor: None, dry_run: false, no_restack: false }
    }
}

impl Opts {
    /// How to merge.
    pub open spec fn spec_merge(self) -> Merge {
        Merge { ignore_ws: self.ignore_ws, favor: self.favor }
    }

    pub fn merge(&self) -> (m: Merge)
        ensures
            m == self.spec_merge(),
    {
        Merge { ignore_ws: self.ignore_ws, favor: self.favor }
    }
}

/// Everything after the last `/`.
pub open spec fn last_part(s: Seq<char>) -> Seq<char>
    decreases s.len(),
{
    if s.len() == 0 || s.last() == '/' {
        Seq::empty()
    } else {
        last_part(s.drop_last()).push(s.last())
    }
}

/// Display form of a refname: everything after the last `/`. Shared by the command
/// line and the screen so both print the same thing.
pub fn short_branch(refname: &str) -> (s: &str)
    ensures
        s@ == last_part(refname@),
{
    let v = text::chars_of(refname);
    let n: usize = v.len();
    let mut i: usize = n;
    assert(v@.subrange(0, n as int) =~= v@);
    assert(v@.subrange(n as int, n as int) =~= Seq::empty());
    assert(last_part(v@) + v@.subrange(n as int, n as int) =~= last_part(v@));
    while i > 0 && v[i - 1] != '/'
        invariant
            0 <= i <= n,
            n == v@.len(),
            last_part(v@.subrange(0, i as int)) + v@.subrange(i as int, n as int) == last_part(v@),
        decreases i,
    {
        i -= 1;
        assert(v@.subrange(0, i + 1).drop_last() =~= v@.subrange(0, i as int));
        assert(last_part(v@.subrange(0, i + 1)) + v@.subrange(i + 1, n as int) =~= last_part(
            v@.subrange(0, i as int),
        ) + v@.subrange(i as int, n as int));
    }
    assert(last_part(v@.subrange(0, i as int)) =~= Seq::empty());
    assert(Seq::<char>::empty() + v@.subrange(i as int, n as int) =~= v@.subrange(
        i as int,
        n as int,
    ));
    refname.substring_char(i, n)
}

/// The state of one changed path, in the worktree and in the index.
#[derive(Clone, Copy, PartialEq, Eq, Structural, Debug)]
pub struct Status {
    pub wt_modified: bool,
    pub wt_deleted: bool,
    pub wt_renamed: bool,
    pub wt_typechange: bool,
    pub staged: bool,
}

impl Status {
    /// Is it changed on disk, relative to the index?
    pub open spec fn unstaged(self) -> bool {
        self.wt_modified || self.wt_deleted || self.wt_renamed || self.wt_typechange
    }
}

/// Full name of the ref that HEAD points at (e.g. `refs/heads/main`); `None` stands
/// for a HEAD that is on no branch.
pub fn head_branch(head: Option<&str>) -> (r: Result<String, Error>)
    ensures
        match (head, r) {
            (Some(h), Ok(b)) => b@ == h@,
            (None, Err(e)) => e@ == ErrorV::DetachedHead,
            _ => false,
        },
{
    match head {
        Some(h) => Ok(h.to_owned()),
        None => Err(Error::DetachedHead),
    }
}

/// Reject unstaged tracked changes. Staged changes are an input, so only
/// working-tree churn is rejected.
pub fn require_clean_unstaged(statuses: &Vec<Status>) -> (r: Result<(), Error>)
    ensures
        r is Ok <==> forall|i: int| 0 <= i < statuses@.len() ==> !(#[trigger] statuses@[i]).unstaged(),
        r matches Err(e) ==> e@ == ErrorV::DirtyWorktree,
{
    let mut i: usize = 0;
    while i < statuses.len()
        invariant
            0 <= i <= statuses@.len(),
            forall|j: int| 0 <= j < i ==> !(#[trigger] statuses@[j]).unstaged(),
        decreases statuses@.len() - i,
    {
        let s = statuses[i];
        if s.wt_modified || s.wt_deleted || s.wt_renamed || s.wt_typechange {
            assert(statuses@[i as int].unstaged());
            return Err(Error::DirtyWorktree);
        }
        i += 1;
    }
    Ok(())
}

/// Reject any tracked change, staged or unstaged: `statuses` lists every one.
pub fn require_fully_clean(statuses: &Vec<Status>) -> (r: Result<(), Error>)
    ensures
        r is Ok <==> statuses@.len() == 0,
        r matches Err(e) ==> e@ == ErrorV::DirtyWorktree,
{
    if statuses.len() > 0 {
        Err(Error::DirtyWorktree)
    } else {
        Ok(())
    }
}

/// Reject an index that holds nothing but what HEAD holds.
pub fn require_staged(head_tree: Oid, staged_tree: Oid) -> (r: Result<(), Error>)
    ensures
        r is Ok <==> head_tree != staged_tree,
        r matches Err(e) ==> e@ == ErrorV::NothingStaged,
{
    if head_tree == staged_tree {
        Err(Error::NothingStaged)
    } else {
        Ok(())
    }
}

/// What an operation is about: the branch that it rewrites, the branch's tip, and a
/// commit of its own choosing.
#[derive(Debug)]
pub struct Request {
    pub branch: String,
    pub head: Oid,
    pub rev: Oid,
}

/// A [`Request`] by its contents.
#[verifier::ext_equal]
pub struct RequestV {
    pub branch: Seq<char>,
    pub head: Oid,
    pub rev: Oid,
}

impl View for Request {
    type V = RequestV;

    open spec fn view(&self) -> RequestV {
        RequestV { branch: self.branch@, head: self.head, rev: self.rev }
    }
}

/// A request that was made or refused, by its contents.
pub open spec fn request_view(r: Result<Request, Error>) -> Result<RequestV, ErrorV> {
    match r {
        Ok(q) => Ok(q@),
        Err(e) => Err(e@),
    }
}

/// The request of what was read, or the first error there is.
pub open spec fn requested(
    branch: Result<String, Error>,
    head: Result<Oid, Error>,
    rev: Result<Oid, Error>,
) -> Result<RequestV, ErrorV> {
    match (branch, head, rev) {
        (Err(e), _, _) => Err(e@),
        (Ok(_), Err(e), _) => Err(e@),
        (Ok(_), Ok(_), Err(e)) => Err(e@),
        (Ok(b), Ok(h), Ok(r)) => Ok(RequestV { branch: b@, head: h, rev: r }),
    }
}

/// The request of what was read: the branch, its tip, and the commit. The first of
/// them that could not be read is the error.
pub fn request(
    branch: Result<String, Error>,
    head: Result<Oid, Error>,
    rev: Result<Oid, Error>,
) -> (r: Result<Request, Error>)
    ensures
        request_view(r) == requested(branch, head, rev),
{
    match (branch, head, rev) {
        (Err(e), _, _) => Err(e),
        (Ok(_), Err(e), _) => Err(e),
        (Ok(_), Ok(_), Err(e)) => Err(e),
        (Ok(branch), Ok(head), Ok(rev)) => Ok(Request { branch, head, rev }),
    }
}

/// The request of an operation that ends in a checkout and takes no input from the
/// worktree: on a branch, it is refused unless everything is clean.
pub fn clean_request(
    branch: Result<String, Error>,
    statuses: Result<Vec<Status>, Error>,
    head: Result<Oid, Error>,
    rev: Result<Oid, Error>,
) -> (r: Result<Request, Error>)
    ensures
        request_view(r) == match (branch, statuses) {
            (Ok(_), Err(e)) => Err(e@),
            (Ok(_), Ok(s)) if s@.len() > 0 => Err(ErrorV::DirtyWorktree),
            _ => requested(branch, head, rev),
        },
{
    if branch.is_ok() {
        match statuses {
            Err(e) => return Err(e),
            Ok(s) => if let Err(e) = require_fully_clean(&s) {
                return Err(e);
            },
        }
    }
    request(branch, head, rev)
}

/// The request of an operation that folds the staged change, given HEAD's tree and the
/// index as a tree: it is refused where nothing is staged.
pub fn staged_request(
    branch: Result<String, Error>,
    head: Result<Oid, Error>,
    rev: Result<Oid, Error>,
    trees: Result<(Oid, Oid), Error>,
) -> (r: Result<Request, Error>)
    ensures
        request_view(r) == match (requested(branch, head, rev), trees) {
            (Err(e), _) => Err(e),
            (Ok(_), Err(e)) => Err(e@),
            (Ok(q), Ok((now, staged))) => if now == staged {
                Err(ErrorV::NothingStaged)
            } else {
                Ok(q)
            },
        },
{
    let q = match request(branch, head, rev) {
        Ok(q) => q,
        Err(e) => return Err(e),
    };
    match trees {
        Err(e) => Err(e),
        Ok((now, staged)) => match require_staged(now, staged) {
            Ok(_) => Ok(q),
            Err(e) => Err(e),
        },
    }
}

// ── refs ────────────────────────────────────────────────────────────────────

/// An entry of a ref's log.
#[derive(Debug)]
pub struct LogEntry {
    pub old: Oid,
    pub new: Oid,
    pub message: String,
}

/// A ref as the listing gives it.
#[derive(Debug)]
pub struct RefInfo {
    /// Its full name.
    pub name: String,
    /// The commit it names.
    pub target: Oid,
    /// Is it a local branch?
    pub branch: bool,
    /// Is it a tag?
    pub tag: bool,
    /// Is it checked out in another worktree?
    pub elsewhere: bool,
    /// The newest entry of its log.
    pub log: Option<LogEntry>,
}

/// A [`LogEntry`] by its contents.
#[verifier::ext_equal]
pub struct LogV {
    pub old: Oid,
    pub new: Oid,
    pub message: Seq<char>,
}

/// A [`RefInfo`] by its contents.
#[verifier::ext_equal]
pub struct RefV {
    pub name: Seq<char>,
    pub target: Oid,
    pub branch: bool,
    pub tag: bool,
    pub elsewhere: bool,
    pub log: Option<LogV>,
}

impl View for LogEntry {
    type V = LogV;

    open spec fn view(&self) -> LogV {
        LogV { old: self.old, new: self.new, message: self.message@ }
    }
}

impl View for RefInfo {
    type V = RefV;

    open spec fn view(&self) -> RefV {
        RefV {
            name: self.name@,
            target: self.target,
            branch: self.branch,
            tag: self.tag,
            elsewhere: self.elsewhere,
            log: match self.log {
                Some(l) => Some(l@),
                None => None,
            },
        }
    }
}

/// The refs by their contents.
pub open spec fn refs_view(v: Seq<RefInfo>) -> Seq<RefV> {
    v.map_values(|r: RefInfo| r@)
}

impl RefV {
    /// The name to print.
    pub open spec fn short(self) -> Seq<char> {
        last_part(self.name)
    }
}

/// Is the branch in the listing?
pub open spec fn listed(refs: Seq<RefV>, branch: Seq<char>) -> bool {
    exists|i: int| 0 <= i < refs.len() && (#[trigger] refs[i]).name == branch
}

/// The other branches, and the tags.
pub open spec fn others(refs: Seq<RefV>, branch: Seq<char>) -> Seq<RefV>
    decreases refs.len(),
{
    if refs.len() == 0 {
        refs
    } else {
        let front = others(refs.drop_last(), branch);
        let r = refs.last();
        if r.name != branch && (r.branch || r.tag) {
            front.push(r)
        } else {
            front
        }
    }
}

/// Every other local branch and every tag. It is read before any ref moves. A
/// listing in which our own branch is missing is incomplete, and an incomplete
/// listing cannot clear anything: it is refused.
pub fn sibling_refs(refs: Vec<RefInfo>, branch: &str) -> (r: Result<Vec<RefInfo>, Error>)
    ensures
        match r {
            Ok(v) => listed(refs_view(refs@), branch@) && refs_view(v@) == others(
                refs_view(refs@),
                branch@,
            ),
            Err(e) => !listed(refs_view(refs@), branch@) && e@ == ErrorV::Empty(
                "the ref listing is incomplete: it lacks "@ + branch@ + " — refusing to rewrite"@,
            ),
        },
{
    let ghost all = refs_view(refs@);
    let mut refs = refs;
    let mut back: Vec<RefInfo> = Vec::new();
    let mut found = false;
    proof {
        assert(all.take(refs@.len() as int) =~= all);
        assert(others(all, branch@) + refs_view(back@).reverse() =~= others(all, branch@));
    }
    while refs.len() > 0
        invariant
            refs_view(refs@) == all.take(refs@.len() as int),
            refs@.len() <= all.len(),
            found == exists|i: int| refs@.len() <= i < all.len() && (#[trigger] all[i]).name == branch@,
            others(all.take(refs@.len() as int), branch@) + refs_view(back@).reverse() == others(
                all,
                branch@,
            ),
        decreases refs@.len(),
    {
        let ghost n = refs@.len();
        let ghost kept = refs_view(back@);
        if let Some(r) = refs.pop() {
            assert(refs_view(refs@) =~= all.take(n - 1));
            assert(all.take(n as int).drop_last() =~= all.take(n - 1));
            assert(all[n - 1] == r@);
            if text::same_text(&r.name, branch) {
                found = true;
            } else if r.branch || r.tag {
                back.push(r);
                assert(refs_view(back@) =~= kept.push(r@));
                assert(others(all.take(n - 1), branch@) + refs_view(back@).reverse() =~= others(
                    all.take(n as int),
                    branch@,
                ) + kept.reverse());
            }
        }
    }
    if !found {
        return Err(
            Error::Empty(
                "the ref listing is incomplete: it lacks ".to_owned().concat(branch).concat(
                    " — refusing to rewrite",
                ),
            ),
        );
    }
    let mut v: Vec<RefInfo> = Vec::new();
    let ghost rest = refs_view(back@);
    while back.len() > 0
        invariant
            refs_view(back@) == rest.take(back@.len() as int),
            back@.len() <= rest.len(),
            refs_view(v@) + refs_view(back@).reverse() == rest.reverse(),
        decreases back@.len(),
    {
        let ghost n = back@.len();
        let ghost before = refs_view(v@);
        if let Some(r) = back.pop() {
            v.push(r);
            assert(refs_view(back@) =~= rest.take(n - 1));
            assert(refs_view(v@) =~= before.push(r@));
            assert(refs_view(v@) + refs_view(back@).reverse() =~= before + rest.take(
                n as int,
            ).reverse());
        }
    }
    assert(refs_view(v@) =~= rest.reverse());
    assert(others(all.take(0), branch@) + rest.reverse() =~= rest.reverse());
    Ok(v)
}

/// What becomes of a sibling when a range of commits is rewritten.
#[derive(Debug)]
pub enum Fate {
    /// It is not concerned.
    Leave,
    /// It stays where it is, and the user is told.
    Warn(String),
    /// It goes to the rewritten counterpart of its commit.
    Move(Oid),
    /// Its tip is outside the range, but it may fork off inside it.
    Fork,
}

/// A [`Fate`] by its contents.
#[verifier::ext_equal]
pub enum FateV {
    Leave,
    Warn(Seq<char>),
    Move(Oid),
    Fork,
}

impl View for Fate {
    type V = FateV;

    open spec fn view(&self) -> FateV {
        match *self {
            Fate::Leave => FateV::Leave,
            Fate::Warn(w) => FateV::Warn(w@),
            Fate::Move(o) => FateV::Move(o),
            Fate::Fork => FateV::Fork,
        }
    }
}

/// What becomes of the sibling `r` when `ids` is rewritten into `map`. A tag names
/// a specific commit, so it never moves. A branch goes along, unless it was asked
/// to stay, has nowhere to go, or is checked out elsewhere.
pub open spec fn fate_of(
    r: RefV,
    ids: Seq<Oid>,
    map: Seq<(Oid, Oid)>,
    no_restack: bool,
) -> FateV {
    if ids.contains(r.target) {
        let image = engine::image(map, r.target);
        if image == Some(r.target) {
            FateV::Leave
        } else if r.tag {
            FateV::Warn(
                "tag "@ + r.short() + " still points at "@ + r.target.spec_short()
                    + " (kept; a tag names a commit)"@,
            )
        } else if no_restack || image is None {
            FateV::Warn(r.short() + " still points into the rewritten range (now orphaned)"@)
        } else if r.elsewhere {
            FateV::Warn(
                r.short() + " is checked out in another worktree; left at "@
                    + r.target.spec_short(),
            )
        } else {
            FateV::Move(image->0)
        }
    } else if r.tag {
        FateV::Leave
    } else {
        FateV::Fork
    }
}

fn among(ids: &Vec<Oid>, c: Oid) -> (b: bool)
    ensures
        b == ids@.contains(c),
{
    let mut i: usize = 0;
    while i < ids.len()
        invariant
            0 <= i <= ids@.len(),
            forall|j: int| 0 <= j < i ==> ids@[j] != c,
        decreases ids@.len() - i,
    {
        if ids[i] == c {
            return true;
        }
        i += 1;
    }
    false
}

/// See [`fate_of`].
pub fn fate(r: &RefInfo, ids: &Vec<Oid>, map: &Vec<(Oid, Oid)>, no_restack: bool) -> (f: Fate)
    ensures
        f@ == fate_of(r@, ids@, map@, no_restack),
{
    if among(ids, r.target) {
        let image = engine::image_of(map, r.target);
        if store::same_oid(image, Some(r.target)) {
            return Fate::Leave;
        }
        if r.tag {
            return Fate::Warn(
                "tag ".to_owned().concat(short_branch(&r.name)).concat(" still points at ").concat(
                    &r.target.short(),
                ).concat(" (kept; a tag names a commit)"),
            );
        }
        match image {
            Some(n) => {
                if no_restack {
                    return Fate::Warn(
                        short_branch(&r.name).to_owned().concat(
                            " still points into the rewritten range (now orphaned)",
                        ),
                    );
                }
                if r.elsewhere {
                    return Fate::Warn(
                        short_branch(&r.name).to_owned().concat(
                            " is checked out in another worktree; left at ",
                        ).concat(&r.target.short()),
                    );
                }
                Fate::Move(n)
            },
            None => Fate::Warn(
                short_branch(&r.name).to_owned().concat(
                    " still points into the rewritten range (now orphaned)",
                ),
            ),
        }
    } else if r.tag {
        Fate::Leave
    } else {
        Fate::Fork
    }
}

/// What the user is told of a branch that forked off at `base`, if that commit was
/// rewritten: landing it is a rebase, not a ref move.
pub open spec fn fork_note(
    r: RefV,
    base: Option<Oid>,
    ids: Seq<Oid>,
    map: Seq<(Oid, Oid)>,
) -> Option<Seq<char>> {
    match base {
        None => None,
        Some(b) => if !ids.contains(b) || engine::image(map, b) == Some(b) {
            None
        } else {
            let head = r.short() + " forked at "@ + b.spec_short() + ", which was rewritten"@;
            match engine::image(map, b) {
                None => Some(head),
                Some(n) => Some(
                    head + "; carry it over with `git rebase --onto "@ + n.spec_short() + " "@
                        + b.spec_short() + " "@ + r.short() + "`"@,
                ),
            }
        },
    }
}

/// See [`fork_note`].
pub fn forked(r: &RefInfo, base: Option<Oid>, ids: &Vec<Oid>, map: &Vec<(Oid, Oid)>) -> (n: Option<
    String,
>)
    ensures
        crate::opt_text(n) == fork_note(r@, base, ids@, map@),
{
    match base {
        None => None,
        Some(b) => {
            let image = engine::image_of(map, b);
            if !among(ids, b) || store::same_oid(image, Some(b)) {
                return None;
            }
            let head = short_branch(&r.name).to_owned().concat(" forked at ").concat(
                &b.short(),
            ).concat(", which was rewritten");
            match image {
                None => Some(head),
                Some(n) => Some(
                    head.concat("; carry it over with `git rebase --onto ").concat(
                        &n.short(),
                    ).concat(" ").concat(&b.short()).concat(" ").concat(
                        short_branch(&r.name),
                    ).concat("`"),
                ),
            }
        },
    }
}

/// The log message of a sibling's move: it names the move of the branch that it
/// went along with, so that the two can be walked back together.
pub open spec fn restack_message(message: Seq<char>, old: Oid, new: Oid) -> Seq<char> {
    message + " [restack "@ + old.spec_short() + ".."@ + new.spec_short() + "]"@
}

pub(crate) fn restacking(message: &str, old: Oid, new: Oid) -> (s: String)
    ensures
        s@ == restack_message(message@, old, new),
{
    message.to_owned().concat(" [restack ").concat(&old.short()).concat("..").concat(
        &new.short(),
    ).concat("]")
}

/// How a sibling's move is reported.
pub open spec fn moved_note(r: RefV, to: Oid) -> Seq<char> {
    r.short() + " "@ + r.target.spec_short() + " -> "@ + to.spec_short()
}

pub(crate) fn moved(r: &RefInfo, to: Oid) -> (s: String)
    ensures
        s@ == moved_note(r@, to),
{
    short_branch(&r.name).to_owned().concat(" ").concat(&r.target.short()).concat(" -> ").concat(
        &to.short(),
    )
}

/// How the signatures that a rewrite costs are reported.
pub open spec fn signature_note(n: nat) -> Seq<char> {
    text::decimal_of(n)
        + " GPG signature(s) dropped — re-sign with `git rebase --exec 'git commit --amend --no-edit -S'`"@
}

// ── actions and events ──────────────────────────────────────────────────────

/// What a driver is asked to do to the repository.
#[derive(Debug)]
pub enum Action {
    /// List every ref.
    ListRefs,
    /// Make worktree and index those of the commit, by force.
    Checkout(Oid),
    /// Move the ref `name` to `to`, but only if it is at `from`; log `message`.
    MoveRef { name: String, to: Oid, from: Oid, message: String },
    /// Find the merge base of two commits.
    MergeBase { one: Oid, two: Oid },
    /// Make the index entries of these paths those of the commit.
    RefreshIndex { tip: Oid, paths: Vec<String> },
}

/// What came of it.
#[derive(Debug)]
pub enum Event {
    Refs(Vec<RefInfo>),
    /// It was done.
    Done,
    /// The ref was not moved; where it is now.
    Refused { now: Option<Oid>, why: String },
    Base(Option<Oid>),
    /// It could not be done, for the reason given.
    Failed(String),
}

/// An [`Action`] by its contents.
#[verifier::ext_equal]
pub enum ActionV {
    ListRefs,
    Checkout(Oid),
    MoveRef { name: Seq<char>, to: Oid, from: Oid, message: Seq<char> },
    MergeBase { one: Oid, two: Oid },
    RefreshIndex { tip: Oid, paths: Seq<Seq<char>> },
}

/// An [`Event`] by its contents.
#[verifier::ext_equal]
pub enum EventV {
    Refs(Seq<RefV>),
    Done,
    Refused { now: Option<Oid>, why: Seq<char> },
    Base(Option<Oid>),
    Failed(Seq<char>),
}

impl View for Action {
    type V = ActionV;

    open spec fn view(&self) -> ActionV {
        match *self {
            Action::ListRefs => ActionV::ListRefs,
            Action::Checkout(o) => ActionV::Checkout(o),
            Action::MoveRef { name, to, from, message } => ActionV::MoveRef {
                name: name@,
                to,
                from,
                message: message@,
            },
            Action::MergeBase { one, two } => ActionV::MergeBase { one, two },
            Action::RefreshIndex { tip, paths } => ActionV::RefreshIndex {
                tip,
                paths: text::texts(paths@),
            },
        }
    }
}

impl View for Event {
    type V = EventV;

    open spec fn view(&self) -> EventV {
        match *self {
            Event::Refs(v) => EventV::Refs(refs_view(v@)),
            Event::Done => EventV::Done,
            Event::Refused { now, why } => EventV::Refused { now, why: why@ },
            Event::Base(b) => EventV::Base(b),
            Event::Failed(m) => EventV::Failed(m@),
        }
    }
}

impl ActionV {
    /// Does it change anything that the user sees?
    pub open spec fn writes(self) -> bool {
        self is Checkout || self is MoveRef || self is RefreshIndex
    }
}

/// Why the action was not done, by the event.
pub open spec fn reason(e: EventV) -> Seq<char> {
    match e {
        EventV::Failed(m) => m,
        EventV::Refused { why, .. } => why,
        _ => "the repository gave an answer that does not fit"@,
    }
}

/// See [`reason`].
pub(crate) fn reason_of(e: Event) -> (r: String)
    ensures
        r@ == reason(e@),
{
    match e {
        Event::Failed(m) => m,
        Event::Refused { why, .. } => why,
        _ => "the repository gave an answer that does not fit".to_owned(),
    }
}

// ── promoting the branch ────────────────────────────────────────────────────

/// A move of the branch ref to a rewritten tip.
#[derive(Debug)]
pub struct Promotion {
    pub branch: String,
    pub new_tip: Oid,
    pub old_tip: Oid,
    pub message: String,
    pub sync: bool,
}

/// A [`Promotion`] by its contents.
#[verifier::ext_equal]
pub struct PromotionV {
    pub branch: Seq<char>,
    pub new_tip: Oid,
    pub old_tip: Oid,
    pub message: Seq<char>,
    pub sync: bool,
}

impl View for Promotion {
    type V = PromotionV;

    open spec fn view(&self) -> PromotionV {
        PromotionV {
            branch: self.branch@,
            new_tip: self.new_tip,
            old_tip: self.old_tip,
            message: self.message@,
            sync: self.sync,
        }
    }
}

/// How far a promotion has come.
#[derive(Clone, Copy, PartialEq, Eq, Structural, Debug)]
pub enum Promoting {
    Checkout,
    Move,
    Over,
}

impl PromotionV {
    /// Where it starts. A tip that stays the same needs nothing.
    pub open spec fn start(self) -> Promoting {
        if self.new_tip == self.old_tip {
            Promoting::Over
        } else if self.sync {
            Promoting::Checkout
        } else {
            Promoting::Move
        }
    }

    /// What it asks for. The ref move comes last, and only if the ref still is where
    /// the operation started.
    pub open spec fn action(self, at: Promoting) -> Option<ActionV> {
        match at {
            Promoting::Checkout => Some(ActionV::Checkout(self.new_tip)),
            Promoting::Move => Some(
                ActionV::MoveRef {
                    name: self.branch,
                    to: self.new_tip,
                    from: self.old_tip,
                    message: self.message,
                },
            ),
            Promoting::Over => None,
        }
    }

    /// What the user reads when the branch is no longer where it was.
    pub open spec fn moved_since(self, now: Option<Oid>) -> Seq<char> {
        last_part(self.branch) + " moved since this operation started (now "@ + (match now {
            Some(o) => o.spec_short(),
            None => "gone"@,
        }) + ") — refusing to overwrite; re-run to pick up the new commits"@
    }

    /// How it goes on.
    pub open spec fn after(self, at: Promoting, e: EventV) -> Result<Promoting, ErrorV> {
        match (at, e) {
            (Promoting::Checkout, EventV::Done) => Ok(Promoting::Move),
            (Promoting::Move, EventV::Done) => Ok(Promoting::Over),
            (Promoting::Move, EventV::Refused { now, why }) => if now == Some(self.old_tip) {
                Err(ErrorV::Git(why))
            } else {
                Err(ErrorV::Empty(self.moved_since(now)))
            },
            _ => Err(ErrorV::Git(reason(e))),
        }
    }
}

impl Promotion {
    /// Where it starts.
    pub fn start(&self) -> (p: Promoting)
        ensures
            p == self@.start(),
    {
        if self.new_tip == self.old_tip {
            Promoting::Over
        } else if self.sync {
            Promoting::Checkout
        } else {
            Promoting::Move
        }
    }

    /// What it asks for.
    pub fn action(&self, at: Promoting) -> (a: Option<Action>)
        ensures
            match a {
                Some(a) => self@.action(at) == Some(a@),
                None => self@.action(at) is None,
            },
    {
        match at {
            Promoting::Checkout => Some(Action::Checkout(self.new_tip)),
            Promoting::Move => Some(
                Action::MoveRef {
                    name: self.branch.clone(),
                    to: self.new_tip,
                    from: self.old_tip,
                    message: self.message.clone(),
                },
            ),
            Promoting::Over => None,
        }
    }

    /// How it goes on.
    pub fn after(&self, at: Promoting, e: Event) -> (r: Result<Promoting, Error>)
        ensures
            match r {
                Ok(p) => self@.after(at, e@) == Ok::<Promoting, ErrorV>(p),
                Err(f) => self@.after(at, e@) == Err::<Promoting, ErrorV>(f@),
            },
    {
        match (at, e) {
            (Promoting::Checkout, Event::Done) => Ok(Promoting::Move),
            (Promoting::Move, Event::Done) => Ok(Promoting::Over),
            (Promoting::Move, Event::Refused { now, why }) => {
                if store::same_oid(now, Some(self.old_tip)) {
                    return Err(Error::Git(why));
                }
                let at = match now {
                    Some(o) => o.short(),
                    None => "gone".to_owned(),
                };
                Err(
                    Error::Empty(
                        short_branch(&self.branch).to_owned().concat(
                            " moved since this operation started (now ",
                        ).concat(&at).concat(
                            ") — refusing to overwrite; re-run to pick up the new commits",
                        ),
                    ),
                )
            },
            (_, e) => Err(Error::Git(reason_of(e))),
        }
    }
}

/// Move the branch ref to the rewritten tip. `sync` decides the worktree: a run
/// that took its whole input in checks the new tip out by force; one that may leave
/// work behind moves the ref only.
pub fn promote(branch: &str, new_tip: Oid, old_tip: Oid, msg: &str, sync: bool) -> (p: Promotion)
    ensures
        p@ == (PromotionV { branch: branch@, new_tip, old_tip, message: msg@, sync }),
{
    Promotion { branch: branch.to_owned(), new_tip, old_tip, message: msg.to_owned(), sync }
}

// ── the operations ──────────────────────────────────────────────────────────

/// Fold the staged change into `target`, by the plan that `recipe::fix` made.
/// `clean` tells that nothing is changed on disk beyond the index: only then is the
/// new tip checked out, so unstaged work survives.
pub fn fix(branch: String, plan: Plan, target: Oid, clean: bool, opts: &Opts) -> (r: Rewrite)
    ensures
        r.wf(),
        r.stage() == StageV::Working,
        r.asked() == asked(
            branch@,
            plan@,
            false,
            "transplant: fix into "@ + target.spec_short(),
            clean,
            *opts,
        ),
        forall|k: Known| #[trigger] r.agrees(k),
{
    let message = "transplant: fix into ".to_owned().concat(&target.short());
    Rewrite::new(branch, plan.base, plan.tip, None, plan.recipe, false, message, clean, opts)
}

/// The rewrite of a plan.
pub open spec fn asked(
    branch: Seq<char>,
    plan: PlanV,
    drop_empty: bool,
    message: Seq<char>,
    sync: bool,
    opts: Opts,
) -> RewriteV {
    RewriteV {
        branch,
        base: plan.base,
        tip: plan.tip,
        order: None,
        recipe: plan.recipe,
        how: opts.spec_merge(),
        drop_empty,
        message,
        sync,
        dry_run: opts.dry_run,
        no_restack: opts.no_restack,
        paths: Seq::empty(),
        lazy: false,
        trial: false,
    }
}

/// The rewrite of a plan with an order of its own.
pub open spec fn asked_shape(
    branch: Seq<char>,
    plan: ShapedV,
    message: Seq<char>,
    sync: bool,
    opts: Opts,
) -> RewriteV {
    RewriteV {
        order: Some(plan.order),
        ..asked(
            branch,
            PlanV { recipe: plan.recipe, base: plan.base, tip: plan.tip },
            true,
            message,
            sync,
            opts,
        )
    }
}

/// Re-anchor `path` at `target`, by the plan that `recipe::mv` made. A commit that
/// held nothing but the file is left out.
pub fn mv(branch: String, plan: Plan, path: &str, target: Oid, opts: &Opts) -> (r: Rewrite)
    ensures
        r.wf(),
        r.stage() == StageV::Working,
        r.asked() == asked(
            branch@,
            plan@,
            true,
            "transplant: move "@ + path@ + " to "@ + target.spec_short(),
            true,
            *opts,
        ),
        forall|k: Known| #[trigger] r.agrees(k),
{
    let message = "transplant: move ".to_owned().concat(path).concat(" to ").concat(
        &target.short(),
    );
    Rewrite::new(branch, plan.base, plan.tip, None, plan.recipe, true, message, true, opts)
}

/// Replace the message of `rev`, by the plan that `recipe::reword` made. No tree
/// changes, so nothing is checked out.
pub fn reword(branch: String, plan: Plan, rev: Oid, opts: &Opts) -> (r: Rewrite)
    ensures
        r.wf(),
        r.stage() == StageV::Working,
        r.asked() == asked(
            branch@,
            plan@,
            false,
            "transplant: reword "@ + rev.spec_short(),
            false,
            *opts,
        ),
        forall|k: Known| #[trigger] r.agrees(k),
{
    let message = "transplant: reword ".to_owned().concat(&rev.short());
    Rewrite::new(branch, plan.base, plan.tip, None, plan.recipe, false, message, false, opts)
}

/// Absorb a change, by the recipe that was made of its routing. Only where nothing
/// is left over (no orphans, and nothing changed on disk) is the new tip checked
/// out: a checkout would wipe what is left.
pub fn absorb(
    branch: String,
    base: Option<Oid>,
    head: Oid,
    recipe: Recipe,
    orphans: usize,
    clean: bool,
    opts: &Opts,
) -> (r: Rewrite)
    ensures
        r.wf(),
        r.stage() == StageV::Working,
        r.asked() == asked(
            branch@,
            PlanV { recipe: recipe@, base, tip: head },
            true,
            "transplant: absorb staged change"@,
            orphans == 0 && clean,
            *opts,
        ),
        forall|k: Known| #[trigger] r.agrees(k),
{
    let message = "transplant: absorb staged change".to_owned();
    Rewrite::new(branch, base, head, None, recipe, true, message, orphans == 0 && clean, opts)
}

/// Carry out a shape plan.
pub fn shape(branch: String, plan: Shaped, msg: &str, sync: bool, opts: &Opts) -> (r: Rewrite)
    ensures
        r.wf(),
        r.stage() == StageV::Working,
        r.asked() == asked_shape(branch@, plan@, msg@, sync, *opts),
        forall|k: Known| #[trigger] r.agrees(k),
{
    Rewrite::new(
        branch,
        plan.base,
        plan.tip,
        Some(plan.order),
        plan.recipe,
        true,
        msg.to_owned(),
        sync,
        opts,
    )
}

/// A shape operation from the command line, and the commit it is about.
#[derive(Clone, Copy, PartialEq, Eq, Structural, Debug)]
pub enum Verb {
    Drop,
    Reorder,
    Squash,
    Split,
}

impl Verb {
    /// The log message of the operation on `rev`.
    pub open spec fn spec_message(self, rev: Oid) -> Seq<char> {
        (match self {
            Verb::Drop => "transplant: drop "@,
            Verb::Reorder => "transplant: reorder "@,
            Verb::Squash => "transplant: squash "@,
            Verb::Split => "transplant: split "@,
        }) + rev.spec_short()
    }

    pub fn message(&self, rev: Oid) -> (s: String)
        ensures
            s@ == self.spec_message(rev),
    {
        (match self {
            Verb::Drop => "transplant: drop ".to_owned(),
            Verb::Reorder => "transplant: reorder ".to_owned(),
            Verb::Squash => "transplant: squash ".to_owned(),
            Verb::Split => "transplant: split ".to_owned(),
        }).concat(&rev.short())
    }
}

} // verus!
