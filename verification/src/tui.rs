//! The interactive screen. One screen, **object–verb**: the focused pane IS the
//! object selector, and there is exactly ONE state axis — where the right pane's
//! rows come from ([`Source`]):
//!
//! - `Staged` (default): the staged diff, one selectable hunk at a time, each with
//!   an inferred target commit. This IS fix and absorb.
//! - `Unstaged` (`w`): the same for work that was never staged.
//! - `Commit(oid)` (`e`): that commit's own hunks — move work OUT of it, into
//!   another commit or into a NEW one (the phantom `+ new commit` row).
//! - `Files` (`m`): the tracked-file list — re-anchor a whole file.
//!
//! Everything here is pure: keys change the [`App`], and the [`Flow`] says what the
//! driver is to do next.

pub mod flow;
pub mod flow_laws;
pub mod key_laws;
pub mod keys;
pub mod labels;
pub mod laws;
pub mod plan;
pub mod routes;
pub mod screen_laws;
pub mod source;
pub mod view;
pub mod view_laws;

use crate::git::FileFavor;
use crate::oid::Oid;
use crate::ops;
use crate::ops::Opts;
use crate::patch;
use crate::patch::{Hunk, HunkV};
use crate::text;
use vstd::prelude::*;

verus! {

// ── the screen's state ──────────────────────────────────────────────────────

/// A changed file's diff plus per-hunk selection and target state.
#[derive(Debug)]
pub struct FileEntry {
    pub path: String,
    pub old_full: String,
    pub hunks: Vec<Hunk>,
    pub selected: Vec<bool>,
    /// Working (user-editable) target per hunk.
    pub targets: Vec<Option<Oid>>,
    /// Inference's original suggestion, for the `a` (accept inference) key.
    pub inferred: Vec<Option<Oid>>,
    /// Filemode on the CHANGED side (exec bit and symlink must survive the move).
    pub mode: i32,
}

/// A row of the commit list.
#[derive(Debug)]
pub struct CommitRow {
    pub oid: Oid,
    pub summary: String,
    /// The commit's own diff (parent to self) as marked lines. Filled on demand:
    /// only the cursor row is ever shown.
    pub diff: Option<Vec<(char, String)>>,
    /// Local branches pointing at this commit. A rewrite carries them along.
    pub refs: Vec<String>,
    /// Does it carry a signature? A rewrite loses it.
    pub signed: bool,
}

#[derive(Clone, Copy, PartialEq, Eq, Structural, Debug)]
pub enum Pane {
    Commits,
    Right,
}

/// Where the right pane's rows come from.
#[derive(Clone, Copy, PartialEq, Eq, Structural, Debug)]
pub enum Source {
    /// The staged change (HEAD to index) — fold new work into old commits.
    Staged,
    /// The UNSTAGED change (index to worktree) — fold work you never staged.
    Unstaged,
    /// An existing commit's own diff — move hunks OUT of it into another commit.
    Commit(Oid),
    /// The tracked-file list — re-anchor a whole file.
    Files,
}

/// A pending stack-SHAPE edit made in the commit pane.
#[derive(Debug)]
pub enum Shape {
    Unchanged,
    /// A reorder is in progress; the payload is the ORIGINAL commit order (newest
    /// first), so it can be put back.
    Reorder(Vec<Oid>),
    Drop(Oid),
    Squash(Oid),
}

/// What a submitted [`Prompt`] does.
#[derive(Clone, Copy, PartialEq, Eq, Structural, Debug)]
pub enum Ask {
    /// Reword this commit. Only the SUMMARY is edited; the body is kept.
    Reword(Oid),
    /// Message for the new commit a split creates, ahead of this one.
    Split(Oid),
    /// Message for a brand-new commit at the tip, built from the picked hunks.
    NewCommit,
    /// Narrow the tracked-file list. This one applies as you type.
    Filter,
}

/// An inline text prompt. It replaces the STATUS line and nothing else.
#[derive(Debug)]
pub struct Prompt {
    /// What is being asked.
    pub label: &'static str,
    /// Text typed so far.
    pub text: String,
    pub what: Ask,
}

/// What the key handler asks the driver to do next.
#[derive(Clone, Copy, PartialEq, Eq, Structural, Debug)]
pub enum Flow {
    Continue,
    Quit,
    Preview,
    Apply,
    /// Load the commit under the cursor as the hunk source.
    OpenCommit,
    /// Load the unstaged worktree changes as the hunk source.
    OpenUnstaged,
    /// Return to the staged-hunk source.
    ResetSource,
    /// Walk the last run back.
    Undo,
    /// Enter was pressed in the inline prompt — run what it was asking for.
    Submit,
}

/// A key.
#[derive(Clone, Copy, PartialEq, Eq, Structural, Debug)]
pub enum Key {
    Char(char),
    Enter,
    Esc,
    Backspace,
    Up,
    Down,
    Left,
    Right,
    Home,
    End,
    PageUp,
    PageDown,
    Tab,
    BackTab,
    Other,
}

#[derive(Debug)]
pub struct App {
    pub branch: String,
    pub head: Oid,
    /// The flags of the command line (minus the dry run: a preview IS one).
    pub opts: Opts,
    /// Oldest commit the view is bounded to, left out. Every shape plan uses it, so
    /// a plan can only ever reorder commits that were actually on screen.
    pub base: Option<Oid>,
    pub commits: Vec<CommitRow>,
    pub files: Vec<FileEntry>,
    /// `(file, hunk)` pairs in display order; the hunk cursor indexes this.
    pub flat: Vec<(usize, usize)>,
    pub move_files: Vec<String>,
    pub focus: Pane,
    pub commit_cursor: usize,
    pub hunk_cursor: usize,
    pub move_cursor: usize,
    pub move_target: Option<Oid>,
    pub status: String,
    pub applied: bool,
    /// Enter was pressed once and reported scope; a second Enter applies.
    pub pending_apply: bool,
    /// `q` was pressed with unapplied routing; a second `q` quits.
    pub pending_quit: bool,
    /// Substring narrowing the tracked-file list. Empty means everything.
    pub filter: String,
    /// Worktree or index has changes — a whole-file move (which needs a clean tree)
    /// can't run.
    pub tree_dirty: bool,
    /// Paths that can't be hunk-folded, for an honest note.
    pub skipped: Vec<String>,
    /// Scroll offset for the commit-diff pane.
    pub diff_scroll: u16,
    /// Where the right pane's hunks come from.
    pub source: Source,
    /// Commit the synthetics are parented at: HEAD for staged work, the source
    /// commit's PARENT when moving hunks out of a commit.
    pub source_base: Oid,
    /// Pending drop, reorder or squash from the commit pane.
    pub shape: Shape,
    /// The inline prompt, while one is open. Every key goes to it.
    pub input: Option<Prompt>,
    /// The commit cursor is parked on the phantom `+ new commit` row. The phantom is
    /// not a member of `commits`: it is a render-and-cursor concept, held by this
    /// one flag.
    pub phantom_cursor: bool,
    /// The help overlay is up. Any key takes it down again.
    pub help: bool,
}

// ── the state by its contents ───────────────────────────────────────────────

/// A [`FileEntry`] by its contents.
#[verifier::ext_equal]
pub struct FileV {
    pub path: Seq<char>,
    pub old_full: Seq<char>,
    pub hunks: Seq<HunkV>,
    pub selected: Seq<bool>,
    pub targets: Seq<Option<Oid>>,
    pub inferred: Seq<Option<Oid>>,
    pub mode: i32,
}

/// A [`CommitRow`] by its contents.
#[verifier::ext_equal]
pub struct RowV {
    pub oid: Oid,
    pub summary: Seq<char>,
    pub diff: Option<Seq<(char, Seq<char>)>>,
    pub refs: Seq<Seq<char>>,
    pub signed: bool,
}

/// A [`Shape`] by its contents.
#[verifier::ext_equal]
pub enum ShapeV {
    Unchanged,
    Reorder(Seq<Oid>),
    Drop(Oid),
    Squash(Oid),
}

/// A [`Prompt`] by its contents.
#[verifier::ext_equal]
pub struct PromptV {
    pub label: Seq<char>,
    pub text: Seq<char>,
    pub what: Ask,
}

/// An [`App`] by its contents.
#[verifier::ext_equal]
pub struct AppV {
    pub branch: Seq<char>,
    pub head: Oid,
    pub opts: Opts,
    pub base: Option<Oid>,
    pub commits: Seq<RowV>,
    pub files: Seq<FileV>,
    pub flat: Seq<(usize, usize)>,
    pub move_files: Seq<Seq<char>>,
    pub focus: Pane,
    pub commit_cursor: usize,
    pub hunk_cursor: usize,
    pub move_cursor: usize,
    pub move_target: Option<Oid>,
    pub status: Seq<char>,
    pub applied: bool,
    pub pending_apply: bool,
    pub pending_quit: bool,
    pub filter: Seq<char>,
    pub tree_dirty: bool,
    pub skipped: Seq<Seq<char>>,
    pub diff_scroll: u16,
    pub source: Source,
    pub source_base: Oid,
    pub shape: ShapeV,
    pub input: Option<PromptV>,
    pub phantom_cursor: bool,
    pub help: bool,
}

impl View for FileEntry {
    type V = FileV;

    open spec fn view(&self) -> FileV {
        FileV {
            path: self.path@,
            old_full: self.old_full@,
            hunks: patch::views(self.hunks@),
            selected: self.selected@,
            targets: self.targets@,
            inferred: self.inferred@,
            mode: self.mode,
        }
    }
}

impl View for CommitRow {
    type V = RowV;

    open spec fn view(&self) -> RowV {
        RowV {
            oid: self.oid,
            summary: self.summary@,
            diff: match self.diff {
                Some(d) => Some(patch::marked(d@)),
                None => None,
            },
            refs: text::texts(self.refs@),
            signed: self.signed,
        }
    }
}

impl View for Shape {
    type V = ShapeV;

    open spec fn view(&self) -> ShapeV {
        match *self {
            Shape::Unchanged => ShapeV::Unchanged,
            Shape::Reorder(v) => ShapeV::Reorder(v@),
            Shape::Drop(o) => ShapeV::Drop(o),
            Shape::Squash(o) => ShapeV::Squash(o),
        }
    }
}

impl View for Prompt {
    type V = PromptV;

    open spec fn view(&self) -> PromptV {
        PromptV { label: self.label@, text: self.text@, what: self.what }
    }
}

/// Files by their contents.
pub open spec fn files_view(v: Seq<FileEntry>) -> Seq<FileV> {
    v.map_values(|f: FileEntry| f@)
}

/// Commit rows by their contents.
pub open spec fn rows_view(v: Seq<CommitRow>) -> Seq<RowV> {
    v.map_values(|r: CommitRow| r@)
}

impl View for App {
    type V = AppV;

    open spec fn view(&self) -> AppV {
        AppV {
            branch: self.branch@,
            head: self.head,
            opts: self.opts,
            base: self.base,
            commits: rows_view(self.commits@),
            files: files_view(self.files@),
            flat: self.flat@,
            move_files: text::texts(self.move_files@),
            focus: self.focus,
            commit_cursor: self.commit_cursor,
            hunk_cursor: self.hunk_cursor,
            move_cursor: self.move_cursor,
            move_target: self.move_target,
            status: self.status@,
            applied: self.applied,
            pending_apply: self.pending_apply,
            pending_quit: self.pending_quit,
            filter: self.filter@,
            tree_dirty: self.tree_dirty,
            skipped: text::texts(self.skipped@),
            diff_scroll: self.diff_scroll,
            source: self.source,
            source_base: self.source_base,
            shape: self.shape@,
            input: match self.input {
                Some(p) => Some(p@),
                None => None,
            },
            phantom_cursor: self.phantom_cursor,
            help: self.help,
        }
    }
}

// ── what a sound state is ───────────────────────────────────────────────────

impl FileV {
    /// There is one target and one suggestion for every hunk that can be selected.
    pub open spec fn wf(self) -> bool {
        self.targets.len() == self.selected.len() && self.inferred.len() == self.selected.len()
    }
}

/// How many hunks can be selected, in all the files.
pub open spec fn selectable(files: Seq<FileV>) -> nat
    decreases files.len(),
{
    if files.len() == 0 {
        0
    } else {
        selectable(files.drop_last()) + files.last().selected.len()
    }
}

impl AppV {
    /// The cursor is on a commit (if there is any), the hunk list names hunks that
    /// exist, and every file is sound.
    pub open spec fn wf(self) -> bool {
        &&& self.commit_cursor < self.commits.len() || (self.commits.len() == 0
            && self.commit_cursor == 0)
        &&& forall|i: int| 0 <= i < self.files.len() ==> (#[trigger] self.files[i]).wf()
        &&& forall|i: int|
            0 <= i < self.flat.len() ==> {
                let (f, h) = #[trigger] self.flat[i];
                f < self.files.len() && h < self.files[f as int].selected.len()
            }
        &&& selectable(self.files) <= usize::MAX
    }
}

// ── what is picked, and where it goes ───────────────────────────────────────

/// How many are set.
pub open spec fn count(s: Seq<bool>) -> nat
    decreases s.len(),
{
    if s.len() == 0 {
        0
    } else {
        count(s.drop_last()) + if s.last() {
            1nat
        } else {
            0nat
        }
    }
}

/// How many hunks are selected, across every file.
pub open spec fn picked_of(files: Seq<FileV>) -> nat
    decreases files.len(),
{
    if files.len() == 0 {
        0
    } else {
        picked_of(files.drop_last()) + count(files.last().selected)
    }
}

/// The targets of the selected hunks among the first `n`, in order; hunks without a
/// target are left out.
pub open spec fn aims(selected: Seq<bool>, targets: Seq<Option<Oid>>, n: int) -> Seq<Oid>
    decreases n,
{
    if n <= 0 {
        Seq::empty()
    } else {
        let front = aims(selected, targets, n - 1);
        match targets[n - 1] {
            Some(t) => if selected[n - 1] {
                front.push(t)
            } else {
                front
            },
            None => front,
        }
    }
}

/// The targets of all selected hunks, in order.
pub open spec fn routes_of(files: Seq<FileV>) -> Seq<Oid>
    decreases files.len(),
{
    if files.len() == 0 {
        Seq::empty()
    } else {
        let f = files.last();
        routes_of(files.drop_last()) + aims(f.selected, f.targets, f.selected.len() as int)
    }
}

/// Target id standing for the phantom `+ new commit` row: a destination that does
/// not exist yet. It is never a real commit.
pub open spec fn spec_phantom() -> Oid {
    Oid::spec_zero()
}

#[verifier::when_used_as_spec(spec_phantom)]
pub fn phantom() -> (o: Oid)
    ensures
        o == spec_phantom(),
{
    Oid::zero()
}

/// The first row of the commit.
pub open spec fn row_of(commits: Seq<RowV>, c: Oid, i: int) -> Option<int>
    decreases commits.len() - i,
{
    if i < 0 || i >= commits.len() {
        None
    } else if commits[i].oid == c {
        Some(i)
    } else {
        row_of(commits, c, i + 1)
    }
}

impl AppV {
    /// Is the phantom row on screen? For every hunk source.
    pub open spec fn has_phantom(self) -> bool {
        self.source != Source::Files
    }

    /// Does the phantom row mean "a new commit at the tip" rather than a split?
    pub open spec fn phantom_is_tip(self) -> bool {
        !(self.source is Commit) && self.source != Source::Files
    }

    /// Is the commit cursor parked on the phantom row?
    pub open spec fn on_phantom(self) -> bool {
        self.has_phantom() && self.phantom_cursor
    }

    /// The commit under the cursor — none on the phantom row, which is a destination
    /// rather than a commit.
    pub open spec fn cursor_commit(self) -> Option<Oid> {
        if self.on_phantom() || self.commit_cursor >= self.commits.len() {
            None
        } else {
            Some(self.commits[self.commit_cursor as int].oid)
        }
    }

    /// What `t` and `f` would route to: a real commit, or the phantom.
    pub open spec fn route_target(self) -> Option<Oid> {
        if self.on_phantom() {
            Some(phantom())
        } else {
            self.cursor_commit()
        }
    }

    /// The file and hunk under the hunk cursor.
    pub open spec fn cursor_hunk(self) -> Option<(usize, usize)> {
        if self.hunk_cursor < self.flat.len() {
            Some(self.flat[self.hunk_cursor as int])
        } else {
            None
        }
    }

    /// Does any picked hunk go to the phantom row?
    pub open spec fn splits(self) -> bool {
        routes_of(self.files).contains(phantom())
    }

    /// Is `a` newer than `b`? The list is newest first.
    pub open spec fn is_newer(self, a: Oid, b: Oid) -> bool {
        match (row_of(self.commits, a, 0), row_of(self.commits, b, 0)) {
            (Some(i), Some(j)) => i < j,
            _ => false,
        }
    }
}

/// The position of a commit in the list.
pub fn row(commits: &Vec<CommitRow>, c: Oid) -> (r: Option<usize>)
    ensures
        match r {
            Some(i) => row_of(rows_view(commits@), c, 0) == Some(i as int) && i < commits@.len(),
            None => row_of(rows_view(commits@), c, 0) is None,
        },
{
    let mut i: usize = 0;
    while i < commits.len()
        invariant
            0 <= i <= commits@.len(),
            row_of(rows_view(commits@), c, i as int) == row_of(rows_view(commits@), c, 0),
        decreases commits@.len() - i,
    {
        assert(rows_view(commits@)[i as int] == commits@[i as int]@);
        if commits[i].oid == c {
            return Some(i);
        }
        i += 1;
    }
    None
}

/// How many are set.
fn count_set(v: &Vec<bool>) -> (n: usize)
    ensures
        n == count(v@),
        n <= v@.len(),
{
    let mut n: usize = 0;
    let mut i: usize = 0;
    while i < v.len()
        invariant
            0 <= i <= v@.len(),
            n <= i,
            n == count(v@.take(i as int)),
        decreases v@.len() - i,
    {
        assert(v@.take(i + 1).drop_last() =~= v@.take(i as int));
        if v[i] {
            n += 1;
        }
        i += 1;
    }
    assert(v@.take(i as int) =~= v@);
    n
}

pub proof fn lemma_selectable(files: Seq<FileV>, n: int)
    requires
        0 <= n <= files.len(),
    ensures
        selectable(files.take(n)) <= selectable(files),
    decreases files.len() - n,
{
    if n < files.len() {
        assert(files.take(n + 1).drop_last() =~= files.take(n));
        lemma_selectable(files, n + 1);
    } else {
        assert(files.take(n) =~= files);
    }
}

impl App {
    /// How many hunks are selected, across every file.
    pub fn picked(&self) -> (n: usize)
        requires
            self@.wf(),
        ensures
            n == picked_of(self@.files),
    {
        let ghost fs = self@.files;
        let mut n: usize = 0;
        let mut i: usize = 0;
        assert(fs.take(0) =~= Seq::empty());
        while i < self.files.len()
            invariant
                fs == files_view(self.files@),
                selectable(fs) <= usize::MAX,
                0 <= i <= self.files@.len(),
                n == picked_of(fs.take(i as int)),
                n <= selectable(fs.take(i as int)),
            decreases self.files@.len() - i,
        {
            assert(fs.take(i + 1).drop_last() =~= fs.take(i as int));
            assert(fs.take(i + 1).last() == self.files@[i as int]@);
            let c = count_set(&self.files[i].selected);
            proof {
                lemma_selectable(fs, i + 1);
            }
            n += c;
            i += 1;
        }
        assert(fs.take(i as int) =~= fs);
        n
    }

    pub fn has_phantom(&self) -> (b: bool)
        ensures
            b == self@.has_phantom(),
    {
        self.source != Source::Files
    }

    pub fn phantom_is_tip(&self) -> (b: bool)
        ensures
            b == self@.phantom_is_tip(),
    {
        match self.source {
            Source::Commit(_) => false,
            Source::Files => false,
            _ => true,
        }
    }

    pub fn on_phantom(&self) -> (b: bool)
        ensures
            b == self@.on_phantom(),
    {
        self.has_phantom() && self.phantom_cursor
    }

    /// The commit under the cursor.
    pub fn cursor_commit(&self) -> (c: Option<Oid>)
        ensures
            c == self@.cursor_commit(),
    {
        if self.on_phantom() {
            return None;
        }
        if self.commit_cursor < self.commits.len() {
            assert(self@.commits[self.commit_cursor as int]
                == self.commits@[self.commit_cursor as int]@);
            Some(self.commits[self.commit_cursor].oid)
        } else {
            None
        }
    }

    /// What `t` and `f` would route to.
    pub fn route_target(&self) -> (c: Option<Oid>)
        ensures
            c == self@.route_target(),
    {
        if self.on_phantom() {
            Some(phantom())
        } else {
            self.cursor_commit()
        }
    }

    /// The targets of all selected hunks, in order.
    pub fn routes(&self) -> (v: Vec<Oid>)
        requires
            self@.wf(),
        ensures
            v@ == routes_of(self@.files),
    {
        let ghost fs = self@.files;
        let mut v: Vec<Oid> = Vec::new();
        let mut i: usize = 0;
        assert(fs.take(0) =~= Seq::empty());
        while i < self.files.len()
            invariant
                fs == files_view(self.files@),
                forall|j: int| 0 <= j < fs.len() ==> (#[trigger] fs[j]).wf(),
                0 <= i <= self.files@.len(),
                v@ == routes_of(fs.take(i as int)),
            decreases self.files@.len() - i,
        {
            let f = &self.files[i];
            let ghost fv = fs[i as int];
            let ghost before = v@;
            assert(fv == f@ && fv.wf());
            assert(fs.take(i + 1).drop_last() =~= fs.take(i as int));
            assert(fs.take(i + 1).last() == fv);
            let mut j: usize = 0;
            assert(before + aims(fv.selected, fv.targets, 0) =~= before);
            while j < f.selected.len()
                invariant
                    fv == f@,
                    fv.wf(),
                    0 <= j <= f.selected@.len(),
                    v@ == before + aims(fv.selected, fv.targets, j as int),
                decreases f.selected@.len() - j,
            {
                if f.selected[j] {
                    if let Some(t) = f.targets[j] {
                        v.push(t);
                        assert(v@ =~= before + aims(fv.selected, fv.targets, j as int).push(t));
                    }
                }
                j += 1;
            }
            i += 1;
        }
        assert(fs.take(i as int) =~= fs);
        v
    }

    /// Does any picked hunk go to the phantom row (i.e. is this a split)?
    pub fn splits(&self) -> (b: bool)
        requires
            self@.wf(),
        ensures
            b == self@.splits(),
    {
        let v = self.routes();
        let mut i: usize = 0;
        while i < v.len()
            invariant
                v@ == routes_of(self@.files),
                0 <= i <= v@.len(),
                forall|j: int| 0 <= j < i ==> v@[j] != spec_phantom(),
            decreases v@.len() - i,
        {
            if v[i] == phantom() {
                assert(v@[i as int] == spec_phantom());
                return true;
            }
            i += 1;
        }
        false
    }

    /// Is `a` newer than `b`?
    pub fn is_newer(&self, a: Oid, b: Oid) -> (r: bool)
        ensures
            r == self@.is_newer(a, b),
    {
        match (row(&self.commits, a), row(&self.commits, b)) {
            (Some(i), Some(j)) => i < j,
            _ => false,
        }
    }

    /// Short branch name for display.
    pub fn short_branch(&self) -> (s: &str)
        ensures
            s@ == ops::last_part(self@.branch),
    {
        ops::short_branch(&self.branch)
    }
}

// ── pure helpers ────────────────────────────────────────────────────────────

/// The pairs of a file and each of its first `n` hunks.
pub open spec fn hunks_in(file: usize, n: nat) -> Seq<(usize, usize)> {
    Seq::new(n, |h: int| (file, h as usize))
}

/// Every hunk of every file, by the files' numbers of hunks.
pub open spec fn flattened(counts: Seq<usize>) -> Seq<(usize, usize)>
    decreases counts.len(),
{
    if counts.len() == 0 {
        Seq::empty()
    } else {
        flattened(counts.drop_last()) + hunks_in(
            (counts.len() - 1) as usize,
            counts.last() as nat,
        )
    }
}

/// Every hunk of every file, in display order.
pub fn flatten(counts: &Vec<usize>) -> (v: Vec<(usize, usize)>)
    ensures
        v@ == flattened(counts@),
{
    let mut v: Vec<(usize, usize)> = Vec::new();
    let mut fi: usize = 0;
    assert(counts@.take(0) =~= Seq::empty());
    while fi < counts.len()
        invariant
            0 <= fi <= counts@.len(),
            v@ == flattened(counts@.take(fi as int)),
        decreases counts@.len() - fi,
    {
        let n: usize = counts[fi];
        let ghost before = v@;
        let mut hi: usize = 0;
        assert(before + hunks_in(fi, 0) =~= before);
        while hi < n
            invariant
                0 <= hi <= n,
                v@ == before + hunks_in(fi, hi as nat),
            decreases n - hi,
        {
            v.push((fi, hi));
            hi += 1;
            assert(v@ =~= before + hunks_in(fi, hi as nat));
        }
        assert(counts@.take(fi + 1).drop_last() =~= counts@.take(fi as int));
        fi += 1;
    }
    assert(counts@.take(fi as int) =~= counts@);
    v
}

/// Which of the hunks are selected for `target`.
pub open spec fn mask(
    selected: Seq<bool>,
    targets: Seq<Option<Oid>>,
    target: Oid,
) -> Seq<bool> {
    Seq::new(
        if selected.len() < targets.len() {
            selected.len()
        } else {
            targets.len()
        },
        |i: int| selected[i] && targets[i] == Some(target),
    )
}

/// See [`mask`].
pub fn mask_for_target(selected: &Vec<bool>, targets: &Vec<Option<Oid>>, target: Oid) -> (v: Vec<
    bool,
>)
    ensures
        v@ == mask(selected@, targets@, target),
{
    let ghost all = mask(selected@, targets@, target);
    let mut v: Vec<bool> = Vec::new();
    let mut i: usize = 0;
    while i < selected.len() && i < targets.len()
        invariant
            all == mask(selected@, targets@, target),
            0 <= i <= all.len(),
            v@ == all.take(i as int),
        decreases all.len() - i,
    {
        let hit = match targets[i] {
            Some(t) => t == target,
            None => false,
        };
        v.push(selected[i] && hit);
        i += 1;
        assert(all.take(i as int) =~= all.take(i - 1).push(all[i - 1]));
    }
    assert(all.take(i as int) =~= all);
    v
}

/// `cur` moved by `delta`, within a list of `len`.
pub open spec fn stepped(cur: int, len: int, delta: int) -> int {
    if len == 0 || cur + delta < 0 {
        0
    } else if cur + delta > len - 1 {
        len - 1
    } else {
        cur + delta
    }
}

/// Move a cursor, staying within the list.
pub fn step(cur: usize, len: usize, delta: isize) -> (r: usize)
    ensures
        r == stepped(cur as int, len as int, delta as int),
        len > 0 ==> r < len,
{
    if len == 0 {
        return 0;
    }
    let last: usize = len - 1;
    if delta < 0 {
        let d: usize = (-(delta + 1)) as usize;
        if cur <= d {
            return 0;
        }
        let next: usize = cur - d - 1;
        if next > last {
            last
        } else {
            next
        }
    } else {
        let d: usize = delta as usize;
        if cur >= last || d > last - cur {
            last
        } else {
            cur + d
        }
    }
}

/// Display name of a conflict rule, matching the flag that sets it.
pub open spec fn favor_word(f: FileFavor) -> Seq<char> {
    match f {
        FileFavor::Ours => "ours"@,
        FileFavor::Theirs => "theirs"@,
        FileFavor::Union => "union"@,
    }
}

/// See [`favor_word`].
pub fn favor_name(f: FileFavor) -> (s: &'static str)
    ensures
        s@ == favor_word(f),
{
    match f {
        FileFavor::Ours => "ours",
        FileFavor::Theirs => "theirs",
        FileFavor::Union => "union",
    }
}

/// `s`, cut to `max` characters with an ellipsis where it is longer.
pub open spec fn truncated(s: Seq<char>, max: nat) -> Seq<char> {
    if s.len() <= max {
        s
    } else {
        s.take(
            if max == 0 {
                0
            } else {
                max - 1
            },
        ) + "…"@
    }
}

/// Trim `s` to `max` characters with an ellipsis.
pub fn truncate(s: &str, max: usize) -> (r: String)
    ensures
        r@ == truncated(s@, max as nat),
{
    let v = text::chars_of(s);
    if v.len() <= max {
        return s.to_owned();
    }
    let n: usize = if max == 0 {
        0
    } else {
        max - 1
    };
    let r = text::string_of(&v, 0, n).concat("…");
    assert(v@.subrange(0, n as int) =~= s@.take(n as int));
    r
}

/// The first blank line of a message is at `i`.
pub open spec fn first_gap(msg: Seq<char>, i: int) -> bool {
    text::occurs_at(msg, "\n\n"@, i) && forall|j: int|
        0 <= j < i ==> !text::occurs_at(msg, "\n\n"@, j)
}

/// The body of a commit message: everything after the summary's blank line, without
/// the white space at its end.
pub open spec fn body(msg: Seq<char>) -> Seq<char> {
    if text::holds(msg, "\n\n"@) {
        let i = choose|i: int| first_gap(msg, i);
        text::trimmed_end(msg.skip(i + 2))
    } else {
        Seq::empty()
    }
}

/// A commit message's body — everything after the summary's blank line, or "" if it
/// has none.
pub fn body_of(msg: &str) -> (r: String)
    ensures
        r@ == body(msg@),
{
    let v = text::chars_of(msg);
    let gap = text::chars_of("\n\n");
    proof {
        reveal_strlit("\n\n");
    }
    match text::find(&v, &gap) {
        None => String::new(),
        Some(i) => {
            let ghost first = choose|i: int| first_gap(msg@, i);
            assert(first_gap(msg@, i as int));
            assert(first == i);
            let n: usize = v.len();
            let tail = text::string_of(&v, i + 2, n);
            assert(tail@ =~= msg@.skip(i + 2));
            text::trim_end(&tail)
        },
    }
}

} // verus!
