//! Where the rows come from: reading the repository's state into the screen, and
//! the right pane's hunks from the index, the worktree or a commit.

use crate::absorb;
use crate::absorb::{Delta, DeltaKind, DeltaV};
use crate::git::Stack;
use crate::git::StackV;
use crate::inference;
use crate::oid::Oid;
use crate::ops;
use crate::ops::{Opts, Status};
use crate::patch;
use crate::patch::{Hunk, HunkV};
use crate::recipe;
use crate::rewrite::{Outcome, OutcomeV};
use crate::store::{CommitInfo, CommitV};
use crate::text;
use crate::tui;
use crate::tui::{App, AppV, CommitRow, FileEntry, FileV, Pane, RowV, Shape, ShapeV, Source};
use crate::Error;
use vstd::prelude::*;

verus! {

// ── one file ────────────────────────────────────────────────────────────────

/// What a changed file is to the screen.
#[verifier::ext_equal]
pub enum EntryV {
    /// There is nothing to pick in it.
    Nothing,
    /// It cannot be folded by hunks, and the user is told.
    Skipped,
    File(FileV),
}

/// A changed file with these hunks, each with its target prefilled from blame. A
/// file without hunks has nothing to pick; one that is not UTF-8 on both sides
/// would not survive a fold.
pub open spec fn entry_of(d: DeltaV, path: Seq<char>, hunks: Seq<HunkV>, window: Seq<Oid>) -> EntryV {
    if d.old == d.new {
        EntryV::Nothing
    } else if unfoldable(d, hunks) {
        EntryV::Skipped
    } else {
        let homes = match d.blame {
            Ok(b) => inference::homes(b, hunks, window),
            Err(_) => none(hunks.len()),
        };
        EntryV::File(
            FileV {
                path,
                old_full: vstd::utf8::decode_utf8(d.old),
                hunks,
                selected: Seq::new(hunks.len(), |i: int| true),
                targets: homes,
                inferred: homes,
                mode: d.mode,
            },
        )
    }
}

/// As many times no target.
pub open spec fn none(n: nat) -> Seq<Option<Oid>> {
    Seq::new(n, |i: int| None)
}

/// A change that cannot be folded by hunks: the file is not text, or the diff takes it
/// for binary and has none.
pub open spec fn unfoldable(d: DeltaV, hunks: Seq<HunkV>) -> bool {
    hunks.len() == 0 || !vstd::utf8::valid_utf8(d.old) || !vstd::utf8::valid_utf8(d.new)
}

/// A file of a commit with these hunks. Nothing is picked: moving a commit's hunks
/// is deliberate, and they have no inferred home.
pub open spec fn movable_of(d: DeltaV, path: Seq<char>, hunks: Seq<HunkV>) -> EntryV {
    if d.old == d.new {
        EntryV::Nothing
    } else if unfoldable(d, hunks) {
        EntryV::Skipped
    } else {
        EntryV::File(
            FileV {
                path,
                old_full: vstd::utf8::decode_utf8(d.old),
                hunks,
                selected: Seq::new(hunks.len(), |i: int| false),
                targets: none(hunks.len()),
                inferred: none(hunks.len()),
                mode: d.mode,
            },
        )
    }
}

/// What a changed file is to the screen.
pub enum Entry {
    Nothing,
    Skipped,
    File(FileEntry),
}

impl View for Entry {
    type V = EntryV;

    open spec fn view(&self) -> EntryV {
        match *self {
            Entry::Nothing => EntryV::Nothing,
            Entry::Skipped => EntryV::Skipped,
            Entry::File(f) => EntryV::File(f@),
        }
    }
}

fn same_bytes(a: &Vec<u8>, b: &Vec<u8>) -> (r: bool)
    ensures
        r == (a@ == b@),
{
    if a.len() != b.len() {
        return false;
    }
    let mut i: usize = 0;
    while i < a.len()
        invariant
            a@.len() == b@.len(),
            0 <= i <= a@.len(),
            a@.take(i as int) == b@.take(i as int),
        decreases a@.len() - i,
    {
        if a[i] != b[i] {
            return false;
        }
        i += 1;
        assert(a@.take(i as int) =~= a@.take(i - 1).push(a@[i - 1]));
        assert(b@.take(i as int) =~= b@.take(i - 1).push(b@[i - 1]));
    }
    assert(a@.take(i as int) =~= a@);
    assert(b@.take(i as int) =~= b@);
    true
}

fn all(n: usize, b: bool) -> (v: Vec<bool>)
    ensures
        v@ == Seq::new(n as nat, |i: int| b),
{
    let mut v: Vec<bool> = Vec::new();
    let mut i: usize = 0;
    while i < n
        invariant
            0 <= i <= n,
            v@ == Seq::new(i as nat, |j: int| b),
        decreases n - i,
    {
        v.push(b);
        i += 1;
        assert(v@ =~= Seq::new(i as nat, |j: int| b));
    }
    v
}

fn no_targets(n: usize) -> (v: Vec<Option<Oid>>)
    ensures
        v@ == none(n as nat),
{
    let mut v: Vec<Option<Oid>> = Vec::new();
    let mut i: usize = 0;
    while i < n
        invariant
            0 <= i <= n,
            v@ == none(i as nat),
        decreases n - i,
    {
        v.push(None);
        i += 1;
        assert(v@ =~= none(i as nat));
    }
    v
}

fn same_targets(t: &Vec<Option<Oid>>) -> (v: Vec<Option<Oid>>)
    ensures
        v@ == t@,
{
    let mut v: Vec<Option<Oid>> = Vec::new();
    let mut i: usize = 0;
    while i < t.len()
        invariant
            0 <= i <= t@.len(),
            v@ == t@.take(i as int),
        decreases t@.len() - i,
    {
        v.push(t[i]);
        i += 1;
        assert(t@.take(i as int) =~= t@.take(i - 1).push(t@[i - 1]));
    }
    assert(t@.take(i as int) =~= t@);
    v
}

/// One path's before and after bytes as a selectable [`FileEntry`], with targets
/// prefilled from blame. Shared by the staged and unstaged loaders: both must refuse
/// a binary the same way rather than one of them quietly dropping it.
pub fn file_entry(d: &Delta, path: &str, hunks: Vec<Hunk>, window: &Vec<Oid>) -> (r: Entry)
    ensures
        r@ == entry_of(d@, path@, patch::views(hunks@), window@),
{
    let n: usize = hunks.len();
    if same_bytes(&d.old, &d.new) {
        return Entry::Nothing;
    }
    let old_full = match (text::decode(&d.old), text::decode(&d.new)) {
        (Some(s), Some(_)) if n > 0 => s,
        _ => {
            return Entry::Skipped;
        },
    };
    let inferred = match &d.blame {
        Ok(b) => inference::infer_targets(b, &hunks, window),
        Err(_) => no_targets(n),
    };
    let targets = same_targets(&inferred);
    let ghost homes = inferred@;
    let f = FileEntry {
        path: path.to_owned(),
        old_full,
        hunks,
        selected: all(n, true),
        targets,
        inferred,
        mode: d.mode,
    };
    assert(f@ =~= (FileV {
        path: path@,
        old_full: vstd::utf8::decode_utf8(d@.old),
        hunks: patch::views(hunks@),
        selected: Seq::new(n as nat, |i: int| true),
        targets: homes,
        inferred: homes,
        mode: d.mode,
    }));
    Entry::File(f)
}

/// One path of a commit's own diff as a selectable [`FileEntry`].
pub fn movable(d: &Delta, path: &str, hunks: Vec<Hunk>) -> (r: Entry)
    ensures
        r@ == movable_of(d@, path@, patch::views(hunks@)),
{
    let n: usize = hunks.len();
    if same_bytes(&d.old, &d.new) {
        return Entry::Nothing;
    }
    let old_full = match (text::decode(&d.old), text::decode(&d.new)) {
        (Some(s), Some(_)) if n > 0 => s,
        _ => {
            return Entry::Skipped;
        },
    };
    let f = FileEntry {
        path: path.to_owned(),
        old_full,
        hunks,
        selected: all(n, false),
        targets: no_targets(n),
        inferred: no_targets(n),
        mode: d.mode,
    };
    assert(f@ =~= (FileV {
        path: path@,
        old_full: vstd::utf8::decode_utf8(d@.old),
        hunks: patch::views(hunks@),
        selected: Seq::new(n as nat, |i: int| false),
        targets: none(n as nat),
        inferred: none(n as nat),
        mode: d.mode,
    }));
    Entry::File(f)
}

/// Filemode on the CHANGED side, as the diff gives it. A mode that is unset is taken
/// for a plain file's.
pub open spec fn mode_of(mode: u32) -> i32 {
    if mode == 0 {
        0o100644
    } else {
        mode as i32
    }
}

/// See [`mode_of`].
pub fn file_mode(mode: u32) -> (m: i32)
    ensures
        m == mode_of(mode),
{
    if mode == 0 {
        0o100644
    } else {
        #[verifier::truncate]
        (mode as i32)
    }
}

// ── all the files ───────────────────────────────────────────────────────────

/// Files to pick from, and paths that cannot be folded.
#[verifier::ext_equal]
pub struct FoundV {
    pub files: Seq<FileV>,
    pub skipped: Seq<Seq<char>>,
}

impl FoundV {
    pub open spec fn empty() -> FoundV {
        FoundV { files: Seq::empty(), skipped: Seq::empty() }
    }

    /// With one more file.
    pub open spec fn with(self, e: EntryV, path: Seq<char>) -> FoundV {
        match e {
            EntryV::Nothing => self,
            EntryV::Skipped => self.skip(path),
            EntryV::File(f) => FoundV { files: self.files.push(f), ..self },
        }
    }

    pub open spec fn skip(self, path: Seq<char>) -> FoundV {
        FoundV { skipped: self.skipped.push(path), ..self }
    }
}

/// What is looked for: new work, or the hunks of a commit.
#[derive(Clone, Copy, PartialEq, Eq, Structural, Debug)]
pub enum Looking {
    Staged,
    Unstaged,
    Commit,
}

impl Looking {
    /// Can a path that changed in this way be folded by hunks? A file that was added
    /// is one whole-file hunk against an empty original. A deleted one would come out
    /// as an empty file, not a removal.
    pub open spec fn spec_takes(self, kind: DeltaKind) -> bool {
        match kind {
            DeltaKind::Modified => true,
            DeltaKind::Added => true,
            DeltaKind::Untracked => self == Looking::Unstaged,
            DeltaKind::Other => false,
        }
    }

    fn takes(self, kind: DeltaKind) -> (b: bool)
        ensures
            b == self.spec_takes(kind),
    {
        match kind {
            DeltaKind::Modified => true,
            DeltaKind::Added => true,
            DeltaKind::Untracked => self == Looking::Unstaged,
            DeltaKind::Other => false,
        }
    }
}

/// One more path, of which the diff could be made or not.
pub open spec fn found_one(
    found: FoundV,
    looking: Looking,
    d: DeltaV,
    diff: Option<Seq<HunkV>>,
    window: Seq<Oid>,
) -> FoundV {
    match d.path {
        None => found,
        Some(path) => if !looking.spec_takes(d.kind) {
            if looking == Looking::Commit {
                found
            } else {
                found.skip(path)
            }
        } else {
            match diff {
                None => found,
                Some(hunks) => found.with(
                    if looking == Looking::Commit {
                        movable_of(d, path, hunks)
                    } else {
                        entry_of(d, path, hunks, window)
                    },
                    path,
                ),
            }
        },
    }
}

/// The first `n` paths, with their diffs.
pub open spec fn found_in(
    looking: Looking,
    deltas: Seq<DeltaV>,
    diffs: Seq<Option<Seq<HunkV>>>,
    window: Seq<Oid>,
    n: int,
) -> FoundV
    decreases n,
{
    if n <= 0 {
        FoundV::empty()
    } else {
        found_one(
            found_in(looking, deltas, diffs, window, n - 1),
            looking,
            deltas[n - 1],
            diffs[n - 1],
            window,
        )
    }
}

/// The diff of each delta, where it can be made.
pub open spec fn diffs_of(deltas: Seq<DeltaV>) -> Seq<Option<Seq<HunkV>>> {
    deltas.map_values(|d: DeltaV| diff_at(d))
}

/// The diff of a delta, where it can be made.
pub open spec fn diff_at(d: DeltaV) -> Option<Seq<HunkV>> {
    match patch::hunks_of(d.old, d.new) {
        Ok(h) => Some(h),
        Err(_) => None,
    }
}

/// What the deltas show.
pub open spec fn found(looking: Looking, deltas: Seq<DeltaV>, window: Seq<Oid>) -> FoundV {
    found_in(looking, deltas, diffs_of(deltas), window, deltas.len() as int)
}

/// A diff by its contents, where it could be made.
pub open spec fn diff_view(diff: Option<Vec<Hunk>>) -> Option<Seq<HunkV>> {
    match diff {
        Some(h) => Some(patch::views(h@)),
        None => None,
    }
}

/// Files to pick from, and paths that cannot be folded.
#[derive(Debug)]
pub struct Found {
    pub files: Vec<FileEntry>,
    pub skipped: Vec<String>,
}

impl View for Found {
    type V = FoundV;

    open spec fn view(&self) -> FoundV {
        FoundV { files: tui::files_view(self.files@), skipped: text::texts(self.skipped@) }
    }
}

impl Found {
    pub fn new() -> (f: Found)
        ensures
            f@ == FoundV::empty(),
    {
        let f = Found { files: Vec::new(), skipped: Vec::new() };
        assert(f@ =~= FoundV::empty());
        f
    }

    fn skip(&mut self, path: &str)
        ensures
            final(self)@ == old(self)@.skip(path@),
    {
        self.skipped.push(path.to_owned());
        assert(self@ =~= old(self)@.skip(path@));
    }

    /// One more path, of which the diff could be made or not.
    pub fn take_in(
        &mut self,
        looking: Looking,
        d: &Delta,
        diff: Option<Vec<Hunk>>,
        window: &Vec<Oid>,
    )
        ensures
            final(self)@ == found_one(
                old(self)@,
                looking,
                d@,
                diff_view(diff),
                window@,
            ),
    {
        let path = match &d.path {
            Some(p) => p,
            None => {
                return;
            },
        };
        if !looking.takes(d.kind) {
            if looking != Looking::Commit {
                self.skip(path);
            }
            return;
        }
        let hunks = match diff {
            Some(h) => h,
            None => {
                return;
            },
        };
        let e = if looking == Looking::Commit {
            movable(d, path, hunks)
        } else {
            file_entry(d, path, hunks, window)
        };
        match e {
            Entry::Nothing => {},
            Entry::Skipped => self.skip(path),
            Entry::File(f) => {
                self.files.push(f);
                assert(self@ =~= old(self)@.with(EntryV::File(f@), path@));
            },
        }
    }
}

/// The files that the deltas show. A path of which the diff cannot be made has
/// nothing to pick.
pub fn find_files(looking: Looking, deltas: &Vec<Delta>, window: &Vec<Oid>) -> (r: Found)
    ensures
        r@ == found(looking, absorb::deltas_view(deltas@), window@),
{
    let ghost ds = absorb::deltas_view(deltas@);
    let mut r = Found::new();
    let mut i: usize = 0;
    while i < deltas.len()
        invariant
            ds == absorb::deltas_view(deltas@),
            0 <= i <= deltas@.len(),
            r@ == found_in(looking, ds, diffs_of(ds), window@, i as int),
        decreases deltas@.len() - i,
    {
        let d = &deltas[i];
        assert(ds[i as int] == d@);
        assert(diffs_of(ds)[i as int] == diff_at(d@));
        let diff = if looking.takes(d.kind) {
            match patch::hunks(&d.old, &d.new) {
                Ok(h) => Some(h),
                Err(_) => None,
            }
        } else {
            None
        };
        r.take_in(looking, d, diff, window);
        i += 1;
    }
    r
}

/// The files found are sound, and their hunks are all there is to pick.
pub open spec fn picked_whole(files: Seq<FileV>) -> bool {
    forall|i: int|
        0 <= i < files.len() ==> (#[trigger] files[i]).wf() && files[i].selected.len()
            == files[i].hunks.len()
}

proof fn lemma_found_whole(
    looking: Looking,
    deltas: Seq<DeltaV>,
    diffs: Seq<Option<Seq<HunkV>>>,
    window: Seq<Oid>,
    n: int,
)
    ensures
        picked_whole(found_in(looking, deltas, diffs, window, n).files),
    decreases n,
{
    if n > 0 {
        lemma_found_whole(looking, deltas, diffs, window, n - 1);
    }
}

/// How many hunks each file has.
pub open spec fn hunk_counts(files: Seq<FileV>) -> Seq<usize> {
    files.map_values(|f: FileV| f.hunks.len() as usize)
}

/// Every hunk of every file, in display order.
pub open spec fn all_hunks(files: Seq<FileV>) -> Seq<(usize, usize)> {
    tui::flattened(hunk_counts(files))
}

/// See [`all_hunks`].
fn hunks_shown(files: &Vec<FileEntry>) -> (v: Vec<(usize, usize)>)
    ensures
        v@ == all_hunks(tui::files_view(files@)),
{
    let mut counts: Vec<usize> = Vec::new();
    let mut i: usize = 0;
    while i < files.len()
        invariant
            0 <= i <= files@.len(),
            counts@ == hunk_counts(tui::files_view(files@)).take(i as int),
        decreases files@.len() - i,
    {
        let n: usize = files[i].hunks.len();
        counts.push(n);
        i += 1;
        assert(tui::files_view(files@)[i - 1].hunks.len() == n);
        assert(counts@ =~= hunk_counts(tui::files_view(files@)).take(i as int));
    }
    assert(counts@ =~= hunk_counts(tui::files_view(files@)));
    tui::flatten(&counts)
}

/// The files fit in a machine's numbers.
pub open spec fn countable(files: Seq<FileV>) -> bool {
    files.len() <= usize::MAX && forall|i: int|
        0 <= i < files.len() ==> (#[trigger] files[i]).hunks.len() <= usize::MAX
}

/// The hunk list names hunks that exist.
pub open spec fn within(flat: Seq<(usize, usize)>, files: Seq<FileV>) -> bool {
    forall|i: int|
        0 <= i < flat.len() ==> {
            let (f, h) = #[trigger] flat[i];
            f < files.len() && h < files[f as int].selected.len()
        }
}

proof fn lemma_flat(files: Seq<FileV>)
    requires
        picked_whole(files),
        countable(files),
    ensures
        all_hunks(files).len() == tui::selectable(files),
        within(all_hunks(files), files),
    decreases files.len(),
{
    if files.len() > 0 {
        let front = files.drop_last();
        let last = files.last();
        assert(last == files[files.len() - 1]);
        assert forall|i: int| 0 <= i < front.len() implies (#[trigger] front[i]).wf()
            && front[i].selected.len() == front[i].hunks.len() && front[i].hunks.len()
            <= usize::MAX by {
            assert(front[i] == files[i]);
        }
        lemma_flat(front);
        assert(hunk_counts(files).drop_last() =~= hunk_counts(front));
        assert(hunk_counts(files).last() == last.hunks.len());
        let a = all_hunks(front);
        let b = tui::hunks_in((files.len() - 1) as usize, last.hunks.len());
        assert(all_hunks(files) == a + b);
        assert forall|i: int| 0 <= i < all_hunks(files).len() implies ({
            let (f, h) = #[trigger] all_hunks(files)[i];
            f < files.len() && h < files[f as int].selected.len()
        }) by {
            if i < a.len() {
                assert(all_hunks(files)[i] == a[i]);
                let (f, h) = a[i];
                assert(front[f as int] == files[f as int]);
            } else {
                assert(all_hunks(files)[i] == b[i - a.len()]);
            }
        }
    }
}

// ── the whole screen ────────────────────────────────────────────────────────

/// How many commits are offered where no base is given: the older ones widen what
/// has to be read, and nobody reorders the commit four hundred back.
pub const DEFAULT_STACK: usize = 50;

/// What is read of the repository, to show it.
#[derive(Debug)]
pub struct Snapshot {
    /// The branch that HEAD is on.
    pub branch: String,
    pub head: Oid,
    /// The stack down to the base that was given, or to the first merge.
    pub stack: Stack,
    /// Every local branch tip, with the branch's short name.
    pub decorations: Vec<(Oid, String)>,
    /// What differs between HEAD and the index.
    pub deltas: Vec<Delta>,
    /// The files of HEAD.
    pub paths: Vec<String>,
    /// Every tracked path that is changed; none where that cannot be told.
    pub statuses: Option<Vec<Status>>,
}

/// A [`Snapshot`] by its contents.
#[verifier::ext_equal]
pub struct SnapshotV {
    pub branch: Seq<char>,
    pub head: Oid,
    pub stack: StackV,
    pub decorations: Seq<(Oid, Seq<char>)>,
    pub deltas: Seq<DeltaV>,
    pub paths: Seq<Seq<char>>,
    pub statuses: Option<Seq<Status>>,
}

/// Decorations by their contents.
pub open spec fn names_view(v: Seq<(Oid, String)>) -> Seq<(Oid, Seq<char>)> {
    v.map_values(|d: (Oid, String)| (d.0, d.1@))
}

impl View for Snapshot {
    type V = SnapshotV;

    open spec fn view(&self) -> SnapshotV {
        SnapshotV {
            branch: self.branch@,
            head: self.head,
            stack: self.stack@,
            decorations: names_view(self.decorations@),
            deltas: absorb::deltas_view(self.deltas@),
            paths: text::texts(self.paths@),
            statuses: match self.statuses {
                Some(v) => Some(v@),
                None => None,
            },
        }
    }
}

/// The names of the branches at this commit.
pub open spec fn names_at(v: Seq<(Oid, Seq<char>)>, c: Oid) -> Seq<Seq<char>>
    decreases v.len(),
{
    if v.len() == 0 {
        Seq::empty()
    } else if v.last().0 == c {
        names_at(v.drop_last(), c).push(v.last().1)
    } else {
        names_at(v.drop_last(), c)
    }
}

/// A commit as a row.
pub open spec fn as_row(row: (Oid, CommitV), names: Seq<(Oid, Seq<char>)>) -> RowV {
    RowV {
        oid: row.0,
        summary: match row.1.summary {
            Some(s) => s,
            None => Seq::empty(),
        },
        diff: None,
        refs: names_at(names, row.0),
        signed: row.1.signed,
    }
}

impl SnapshotV {
    /// Is the stack cut to the default height?
    pub open spec fn capped(self, base: Option<Oid>) -> bool {
        base is None && self.stack.rows.len() > DEFAULT_STACK
    }

    /// How many of the oldest commits are not shown.
    pub open spec fn hidden(self, base: Option<Oid>) -> int {
        if self.capped(base) {
            self.stack.rows.len() - DEFAULT_STACK
        } else {
            0
        }
    }

    /// What the view is bounded to.
    pub open spec fn bound(self, base: Option<Oid>) -> Option<Oid> {
        if self.capped(base) {
            recipe::first_parent(self.stack.rows[self.hidden(base)].1.parents)
        } else {
            base
        }
    }

    /// The commits shown, oldest first.
    pub open spec fn window(self, base: Option<Oid>) -> Seq<Oid> {
        self.stack.ids().skip(self.hidden(base))
    }

    /// The commits shown, newest first.
    pub open spec fn rows(self, base: Option<Oid>) -> Seq<RowV> {
        let n = self.stack.rows.len();
        Seq::new(
            (n - self.hidden(base)) as nat,
            |i: int| as_row(self.stack.rows[n - 1 - i], self.decorations),
        )
    }
}

/// How many files there are that cannot be folded, if there are any.
pub open spec fn left_note(skipped: nat) -> Seq<char> {
    if skipped == 0 {
        Seq::empty()
    } else {
        " · "@ + text::decimal_of(skipped) + " file(s) not hunk-foldable"@
    }
}

/// See [`left_note`].
fn note_left(skipped: usize) -> (s: String)
    ensures
        s@ == left_note(skipped as nat),
{
    if skipped == 0 {
        let s = String::new();
        assert(s@ =~= Seq::empty());
        s
    } else {
        " · ".to_owned().concat(&text::decimal(skipped)).concat(" file(s) not hunk-foldable")
    }
}

/// The first line that the user reads: what can be done here, not a keymap.
pub open spec fn greeting(hunks: nat, skipped: nat) -> Seq<char> {
    if hunks == 0 {
        if skipped == 0 {
            "w: fold your UNSTAGED work · e on a commit: move its hunks out · m: move a file"@
        } else {
            text::decimal_of(skipped)
                + " staged file(s) can't be hunk-folded (binary or whole-file) — press e on a commit, or m to move a file"@
        }
    } else {
        "Enter: absorb "@ + text::decimal_of(hunks)
            + " staged hunk(s) into inferred commits · p: preview first"@ + left_note(skipped)
    }
}

/// The screen on a repository in this state.
pub open spec fn loaded(snap: SnapshotV, base: Option<Oid>, opts: Opts, found: FoundV) -> AppV {
    AppV {
        branch: snap.branch,
        head: snap.head,
        opts,
        base: snap.bound(base),
        commits: snap.rows(base),
        files: found.files,
        flat: all_hunks(found.files),
        move_files: snap.paths,
        focus: Pane::Commits,
        commit_cursor: 0,
        hunk_cursor: 0,
        move_cursor: 0,
        move_target: None,
        status: greeting(all_hunks(found.files).len(), found.skipped.len()),
        applied: false,
        pending_apply: false,
        pending_quit: false,
        filter: Seq::empty(),
        tree_dirty: match snap.statuses {
            Some(v) => v.len() > 0,
            None => true,
        },
        skipped: found.skipped,
        diff_scroll: 0,
        source: Source::Staged,
        source_base: snap.head,
        shape: ShapeV::Unchanged,
        input: None,
        phantom_cursor: false,
        help: false,
    }
}

fn names_of(v: &Vec<(Oid, String)>, c: Oid) -> (r: Vec<String>)
    ensures
        text::texts(r@) == names_at(names_view(v@), c),
{
    let ghost vv = names_view(v@);
    let mut r: Vec<String> = Vec::new();
    let mut i: usize = 0;
    assert(text::texts(r@) =~= names_at(vv.take(0), c));
    while i < v.len()
        invariant
            vv == names_view(v@),
            0 <= i <= v@.len(),
            text::texts(r@) == names_at(vv.take(i as int), c),
        decreases v@.len() - i,
    {
        assert(vv.take(i + 1).drop_last() =~= vv.take(i as int));
        assert(vv.take(i + 1).last() == (v@[i as int].0, v@[i as int].1@));
        if v[i].0 == c {
            let ghost before = text::texts(r@);
            r.push(v[i].1.clone());
            assert(text::texts(r@) =~= before.push(v@[i as int].1@));
        }
        i += 1;
    }
    assert(vv.take(i as int) =~= vv);
    r
}

fn row_for(row: &(Oid, CommitInfo), names: &Vec<(Oid, String)>) -> (r: CommitRow)
    ensures
        r@ == as_row((row.0, row.1@), names_view(names@)),
{
    let summary = match &row.1.summary {
        Some(s) => s.clone(),
        None => String::new(),
    };
    let r = CommitRow {
        oid: row.0,
        summary,
        diff: None,
        refs: names_of(names, row.0),
        signed: row.1.signed,
    };
    assert(r@ =~= as_row((row.0, row.1@), names_view(names@)));
    r
}

fn greet(hunks: usize, skipped: usize) -> (s: String)
    ensures
        s@ == greeting(hunks as nat, skipped as nat),
{
    if hunks == 0 {
        if skipped == 0 {
            "w: fold your UNSTAGED work · e on a commit: move its hunks out · m: move a file".to_owned()
        } else {
            text::decimal(skipped).concat(
                " staged file(s) can't be hunk-folded (binary or whole-file) — press e on a commit, or m to move a file",
            )
        }
    } else {
        "Enter: absorb ".to_owned().concat(&text::decimal(hunks)).concat(
            " staged hunk(s) into inferred commits · p: preview first",
        ).concat(&note_left(skipped))
    }
}

/// The rows of the commits shown, newest first, and the commits, oldest first.
fn rows_shown(stack: &Stack, from: usize, names: &Vec<(Oid, String)>) -> (r: (
    Vec<CommitRow>,
    Vec<Oid>,
))
    requires
        from <= stack@.rows.len(),
    ensures
        tui::rows_view(r.0@) == Seq::new(
            (stack@.rows.len() - from) as nat,
            |i: int| as_row(stack@.rows[stack@.rows.len() - 1 - i], names_view(names@)),
        ),
        r.1@ == stack@.ids().skip(from as int),
{
    let ghost nv = names_view(names@);
    let n: usize = stack.rows.len();
    let mut rows: Vec<CommitRow> = Vec::new();
    let mut i: usize = n;
    while i > from
        invariant
            from <= i <= n,
            n == stack.rows@.len(),
            nv == names_view(names@),
            tui::rows_view(rows@) == Seq::new(
                (n - i) as nat,
                |j: int| as_row(stack@.rows[n - 1 - j], nv),
            ),
        decreases i,
    {
        i -= 1;
        let ghost before = tui::rows_view(rows@);
        assert(stack@.rows[i as int] == (stack.rows@[i as int].0, stack.rows@[i as int].1@));
        rows.push(row_for(&stack.rows[i], names));
        assert(tui::rows_view(rows@) =~= before.push(as_row(stack@.rows[i as int], nv)));
        assert(tui::rows_view(rows@) =~= Seq::new(
            (n - i) as nat,
            |j: int| as_row(stack@.rows[n - 1 - j], nv),
        ));
    }
    let mut window: Vec<Oid> = Vec::new();
    let mut i: usize = from;
    while i < n
        invariant
            from <= i <= n,
            n == stack.rows@.len(),
            window@ == stack@.ids().subrange(from as int, i as int),
        decreases n - i,
    {
        window.push(stack.rows[i].0);
        i += 1;
        assert(stack@.ids()[i - 1] == stack.rows@[i - 1].0);
        assert(stack@.ids().subrange(from as int, i as int) =~= stack@.ids().subrange(
            from as int,
            i - 1,
        ).push(stack@.ids()[i - 1]));
    }
    assert(window@ =~= stack@.ids().skip(from as int));
    (rows, window)
}

/// Show a repository in this state. `base` bounds the stack shown (left out itself);
/// without one, it is cut to [`DEFAULT_STACK`].
pub fn load(snap: Snapshot, base: Option<Oid>, opts: Opts) -> (app: App)
    ensures
        app@.wf(),
        app@ == loaded(
            snap@,
            base,
            opts,
            found(Looking::Staged, snap@.deltas, snap@.window(base)),
        ),
{
    let n: usize = snap.stack.rows.len();
    let capped = base.is_none() && n > DEFAULT_STACK;
    let from: usize = if capped {
        n - DEFAULT_STACK
    } else {
        0
    };
    let bound = if capped {
        assert(snap.stack@.rows[from as int] == (
            snap.stack.rows@[from as int].0,
            snap.stack.rows@[from as int].1@,
        ));
        if snap.stack.rows[from].1.parents.len() == 0 {
            None
        } else {
            Some(snap.stack.rows[from].1.parents[0])
        }
    } else {
        base
    };
    let (commits, window) = rows_shown(&snap.stack, from, &snap.decorations);
    let found = find_files(Looking::Staged, &snap.deltas, &window);
    let ghost fv = found@;
    let ghost sv = snap@;
    assert(window@ == sv.window(base));
    let flat = hunks_shown(&found.files);
    proof {
        lemma_found_whole(
            Looking::Staged,
            snap@.deltas,
            diffs_of(snap@.deltas),
            window@,
            snap@.deltas.len() as int,
        );
    }
    sound_files(&found.files);
    proof {
        lemma_flat(fv.files);
    }
    let status = greet(flat.len(), found.skipped.len());
    assert(text::texts(found.skipped@).len() == found.skipped@.len());
    let tree_dirty = match &snap.statuses {
        Some(v) => ops::require_fully_clean(v).is_err(),
        None => true,
    };
    let filter = String::new();
    assert(filter@ =~= Seq::empty());
    let app = App {
        branch: snap.branch,
        head: snap.head,
        opts,
        base: bound,
        commits,
        files: found.files,
        flat,
        move_files: snap.paths,
        focus: Pane::Commits,
        commit_cursor: 0,
        hunk_cursor: 0,
        move_cursor: 0,
        move_target: None,
        status,
        applied: false,
        pending_apply: false,
        pending_quit: false,
        filter,
        tree_dirty,
        skipped: found.skipped,
        diff_scroll: 0,
        source: Source::Staged,
        source_base: snap.head,
        shape: Shape::Unchanged,
        input: None,
        phantom_cursor: false,
        help: false,
    };
    assert(app@ =~= loaded(sv, base, opts, fv));
    app
}

/// What a machine can hold, it can count.
fn sound_files(files: &Vec<FileEntry>)
    ensures
        countable(tui::files_view(files@)),
{
    let n: usize = files.len();
    let mut i: usize = 0;
    while i < n
        invariant
            n == files@.len(),
            0 <= i <= n,
            forall|j: int|
                0 <= j < i ==> (#[trigger] tui::files_view(files@)[j]).hunks.len() <= usize::MAX,
        decreases n - i,
    {
        let m: usize = files[i].hunks.len();
        assert(tui::files_view(files@)[i as int].hunks.len() == m);
        i += 1;
    }
}

// ── reloading ───────────────────────────────────────────────────────────────

/// The smaller of the cursor and the last place of a list.
pub open spec fn clamped(cursor: usize, len: nat) -> usize {
    if len == 0 {
        0
    } else if cursor > len - 1 {
        (len - 1) as usize
    } else {
        cursor
    }
}

fn clamp(cursor: usize, len: usize) -> (c: usize)
    ensures
        c == clamped(cursor, len as nat),
{
    if len == 0 {
        0
    } else if cursor > len - 1 {
        len - 1
    } else {
        cursor
    }
}

impl AppV {
    /// The screen read anew, with the user's place in it kept. The source starts over
    /// on purpose: the hunks it named are gone.
    pub open spec fn reloaded(self, fresh: AppV, status: Seq<char>) -> AppV {
        AppV {
            commit_cursor: clamped(self.commit_cursor, fresh.commits.len()),
            hunk_cursor: clamped(self.hunk_cursor, fresh.flat.len()),
            focus: self.focus,
            status,
            ..fresh
        }
    }
}

/// What is said once an undo has run.
pub open spec fn undone_text(o: OutcomeV) -> Seq<char> {
    "undone: "@ + ops::last_part(o.branch) + " now at "@ + o.new_tip.spec_short() + " (was "@
        + o.old_tip.spec_short() + ") · u again redoes it"@
}

impl App {
    /// Show the repository as it was read anew, keep the user's place, and say
    /// `status`; or say why it could not be read.
    pub fn reload(&mut self, fresh: Result<App, Error>, status: String)
        requires
            old(self)@.wf(),
            fresh matches Ok(a) ==> a@.wf(),
        ensures
            final(self)@.wf(),
            final(self)@ == match fresh {
                Ok(a) => old(self)@.reloaded(a@, status@),
                Err(e) => old(self)@.say(e@.message()),
            },
    {
        match fresh {
            Ok(a) => {
                let mut a = a;
                a.commit_cursor = clamp(self.commit_cursor, a.commits.len());
                a.hunk_cursor = clamp(self.hunk_cursor, a.flat.len());
                a.focus = self.focus;
                a.status = status;
                *self = a;
            },
            Err(e) => {
                self.status = e.message();
            },
        }
    }

    /// Return to the staged hunks, by the repository as it was read anew.
    pub fn reset_to_staged(&mut self, fresh: Result<App, Error>)
        requires
            old(self)@.wf(),
            fresh matches Ok(a) ==> a@.wf(),
        ensures
            final(self)@.wf(),
            final(self)@ == match fresh {
                Ok(a) => old(self)@.reloaded(a@, "back to staged hunks"@),
                Err(e) => old(self)@.say(e@.message()),
            },
    {
        self.reload(fresh, "back to staged hunks".to_owned());
    }

    /// `u` — the last run was walked back, or not. Gives what to say once the screen
    /// is read anew.
    pub fn undo(&mut self, r: Result<Outcome, Error>) -> (done: Option<String>)
        requires
            old(self)@.wf(),
        ensures
            final(self)@.wf(),
            match r {
                Ok(o) => crate::opt_text(done) == Some(undone_text(o@)) && final(self)@
                    == old(self)@,
                Err(e) => done is None && final(self)@ == old(self)@.say(e@.message()),
            },
    {
        match r {
            Ok(o) => Some(
                "undone: ".to_owned().concat(o.short_branch()).concat(" now at ").concat(
                    &o.new_tip.short(),
                ).concat(" (was ").concat(&o.old_tip.short()).concat(") · u again redoes it"),
            ),
            Err(e) => {
                self.status = e.message();
                None
            },
        }
    }
}

// ── the worktree as the source ──────────────────────────────────────────────

/// What opening a source needs.
#[derive(Clone, Copy, PartialEq, Eq, Structural, Debug)]
pub enum Opening {
    /// Nothing: it was refused.
    Refused,
    /// The staged source again.
    Reset,
    /// The worktree's changes.
    Worktree,
    /// The commit's changes.
    Commit(Oid),
}

/// What the worktree gave.
#[derive(Debug)]
pub enum Worktree {
    /// There is none.
    Bare,
    /// The index cannot be read, for the reason given.
    NoIndex(String),
    NoDiff,
    /// The index as a tree, and what differs from it on disk.
    Read { index: Oid, deltas: Vec<Delta> },
}

/// A [`Worktree`] by its contents.
#[verifier::ext_equal]
pub enum WorktreeV {
    Bare,
    NoIndex(Seq<char>),
    NoDiff,
    Read { index: Oid, deltas: Seq<DeltaV> },
}

impl View for Worktree {
    type V = WorktreeV;

    open spec fn view(&self) -> WorktreeV {
        match *self {
            Worktree::Bare => WorktreeV::Bare,
            Worktree::NoIndex(e) => WorktreeV::NoIndex(e@),
            Worktree::NoDiff => WorktreeV::NoDiff,
            Worktree::Read { index, deltas } => WorktreeV::Read {
                index,
                deltas: absorb::deltas_view(deltas@),
            },
        }
    }
}

impl WorktreeV {
    /// What was read.
    pub open spec fn deltas(self) -> Seq<DeltaV> {
        match self {
            WorktreeV::Read { deltas, .. } => deltas,
            _ => Seq::empty(),
        }
    }
}

/// What came of the commit that is to hold the index.
#[derive(Clone, Copy, PartialEq, Eq, Structural, Debug)]
pub enum Indexed {
    /// HEAD cannot be read.
    NoHead,
    /// It could not be written.
    Failed,
    Done(Oid),
}

impl AppV {
    /// Why the worktree cannot be the source, if it cannot: there is none, it cannot
    /// be read, or nothing in it can be folded.
    pub open spec fn no_worktree(self, read: WorktreeV, found: FoundV) -> Option<Seq<char>> {
        match read {
            WorktreeV::Bare => Some("bare repo — there is no worktree to read"@),
            WorktreeV::NoIndex(e) => Some("can't read the index: "@ + e),
            WorktreeV::NoDiff => Some("can't diff the worktree"@),
            WorktreeV::Read { .. } => if found.files.len() > 0 {
                None
            } else if found.skipped.len() == 0 {
                Some("nothing unstaged to fold"@)
            } else {
                Some(
                    text::decimal_of(found.skipped.len())
                        + " unstaged file(s) can't be hunk-folded (binary or whole-file add/delete)"@,
                )
            },
        }
    }

    /// The worktree's hunks as the source, on top of the commit that holds the index:
    /// what is staged beneath them then cancels out.
    pub open spec fn on_worktree(self, found: FoundV, indexed: Indexed) -> AppV {
        match indexed {
            Indexed::NoHead => self,
            Indexed::Failed => self.say("can't snapshot the index"@),
            Indexed::Done(base) => AppV {
                files: found.files,
                flat: all_hunks(found.files),
                source: Source::Unstaged,
                source_base: base,
                hunk_cursor: 0,
                focus: Pane::Right,
                skipped: found.skipped,
                ..self
            }.say(
                text::decimal_of(all_hunks(found.files).len())
                    + " unstaged hunk(s), targets from blame — ⏎ absorbs · Space unpicks · w: back"@
                    + left_note(found.skipped.len()),
            ),
        }
    }
}

proof fn lemma_shown(s: AppV, looking: Looking, deltas: Seq<DeltaV>, window: Seq<Oid>)
    requires
        s.wf(),
        countable(found(looking, deltas, window).files),
        all_hunks(found(looking, deltas, window).files).len() <= usize::MAX,
    ensures
        ({
            let files = found(looking, deltas, window).files;
            (AppV { files, flat: all_hunks(files), ..s }).wf()
        }),
{
    lemma_found_whole(looking, deltas, diffs_of(deltas), window, deltas.len() as int);
    lemma_flat(found(looking, deltas, window).files);
}

/// Files that are sound, and few enough to count.
pub open spec fn fit(found: FoundV) -> bool {
    picked_whole(found.files) && countable(found.files)
}

impl App {
    /// `w` — what opening the worktree needs. Pressed again it goes back.
    pub fn unstaged_opening(&self) -> (o: Opening)
        ensures
            o == if self@.source == Source::Unstaged {
                Opening::Reset
            } else {
                Opening::Worktree
            },
    {
        if self.source == Source::Unstaged {
            Opening::Reset
        } else {
            Opening::Worktree
        }
    }

    /// `w` — take the UNSTAGED changes of the worktree as the hunk source. Gives the
    /// files found and the index as a tree, which is to be committed on top of HEAD
    /// for [`App::show_unstaged`].
    pub fn open_unstaged_source(&mut self, read: Worktree) -> (r: Option<(Found, Oid)>)
        requires
            old(self)@.wf(),
        ensures
            final(self)@.wf(),
            ({
                let found = found(Looking::Unstaged, read@.deltas(), old(self)@.commit_order());
                match old(self)@.no_worktree(read@, found) {
                    Some(why) => r is None && final(self)@ == old(self)@.say(why),
                    None => {
                        &&& r matches Some((f, tree))
                        &&& f@ == found
                        &&& fit(found)
                        &&& read@ matches WorktreeV::Read { index, .. } && tree == index
                        &&& final(self)@ == old(self)@
                    },
                }
            }),
    {
        let ghost rv = read@;
        let (index, deltas) = match read {
            Worktree::Bare => {
                self.status = "bare repo — there is no worktree to read".to_owned();
                assert(self@ == old(self)@.say(self.status@));
                return None;
            },
            Worktree::NoIndex(e) => {
                self.status = "can't read the index: ".to_owned().concat(&e);
                assert(self@ == old(self)@.say(self.status@));
                return None;
            },
            Worktree::NoDiff => {
                self.status = "can't diff the worktree".to_owned();
                assert(self@ == old(self)@.say(self.status@));
                return None;
            },
            Worktree::Read { index, deltas } => (index, deltas),
        };
        let window = self.commit_order();
        let found = find_files(Looking::Unstaged, &deltas, &window);
        let ghost fv = found@;
        if found.files.len() == 0 {
            let n: usize = found.skipped.len();
            self.status = if n == 0 {
                "nothing unstaged to fold".to_owned()
            } else {
                text::decimal(n).concat(
                    " unstaged file(s) can't be hunk-folded (binary or whole-file add/delete)",
                )
            };
            assert(old(self)@.no_worktree(rv, fv) == Some(self.status@));
            return None;
        }
        proof {
            let ds = absorb::deltas_view(deltas@);
            lemma_found_whole(Looking::Unstaged, ds, diffs_of(ds), window@, ds.len() as int);
        }
        sound_files(&found.files);
        Some((found, index))
    }

    /// Show the files found in the worktree, on top of the commit that holds the
    /// index.
    pub fn show_unstaged(&mut self, found: Found, indexed: Indexed)
        requires
            old(self)@.wf(),
            fit(found@),
        ensures
            final(self)@.wf(),
            final(self)@ == old(self)@.on_worktree(found@, indexed),
    {
        let base = match indexed {
            Indexed::NoHead => {
                return;
            },
            Indexed::Failed => {
                self.status = "can't snapshot the index".to_owned();
                return;
            },
            Indexed::Done(base) => base,
        };
        self.flat = hunks_shown(&found.files);
        proof {
            lemma_flat(found@.files);
        }
        self.files = found.files;
        self.source = Source::Unstaged;
        self.source_base = base;
        self.hunk_cursor = 0;
        self.focus = Pane::Right;
        let left = note_left(found.skipped.len());
        assert(found@.skipped.len() == found.skipped@.len());
        self.skipped = found.skipped;
        let n: usize = self.flat.len();
        self.status = text::decimal(n).concat(
            " unstaged hunk(s), targets from blame — ⏎ absorbs · Space unpicks · w: back",
        ).concat(&left);
        assert(self@ =~= old(self)@.on_worktree(found@, indexed));
    }
}

// ── a commit as the source ──────────────────────────────────────────────────

/// What reading a commit gave.
#[derive(Debug)]
pub enum CommitRead {
    /// It cannot be read.
    Gone,
    /// It has no parent.
    Root,
    /// Its parent, and what differs from it.
    Read { parent: Oid, deltas: Vec<Delta> },
}

/// A [`CommitRead`] by its contents.
#[verifier::ext_equal]
pub enum CommitReadV {
    Gone,
    Root,
    Read { parent: Oid, deltas: Seq<DeltaV> },
}

impl View for CommitRead {
    type V = CommitReadV;

    open spec fn view(&self) -> CommitReadV {
        match *self {
            CommitRead::Gone => CommitReadV::Gone,
            CommitRead::Root => CommitReadV::Root,
            CommitRead::Read { parent, deltas } => CommitReadV::Read {
                parent,
                deltas: absorb::deltas_view(deltas@),
            },
        }
    }
}

impl CommitReadV {
    /// What was read.
    pub open spec fn deltas(self) -> Seq<DeltaV> {
        match self {
            CommitReadV::Read { deltas, .. } => deltas,
            _ => Seq::empty(),
        }
    }
}

impl AppV {
    /// What opening the commit under the cursor needs, and what is said. Only from
    /// the commit list; on the commit that is open it goes back.
    pub open spec fn opening_commit(self) -> (AppV, Opening) {
        if self.focus != Pane::Commits || self.on_phantom() {
            (
                self.say("press e on a commit in the list to use that commit's hunks"@),
                Opening::Refused,
            )
        } else {
            match self.cursor_commit() {
                None => (self, Opening::Refused),
                Some(c) => (
                    self,
                    if self.source == Source::Commit(c) {
                        Opening::Reset
                    } else {
                        Opening::Commit(c)
                    },
                ),
            }
        }
    }

    /// The commit's own hunks as the source: they can be moved OUT of it, on top of
    /// its parent.
    pub open spec fn on_commit(self, c: Oid, read: CommitReadV, found: FoundV) -> AppV {
        match read {
            CommitReadV::Gone => self,
            CommitReadV::Root => self.say(
                "root commit has no parent — can't move hunks out of it"@,
            ),
            CommitReadV::Read { parent, .. } => if found.files.len() == 0 {
                self.say(
                    c.spec_short() + " has no text hunks to move"@ + left_note(
                        found.skipped.len(),
                    ),
                )
            } else {
                AppV {
                    files: found.files,
                    flat: all_hunks(found.files),
                    source: Source::Commit(c),
                    source_base: parent,
                    hunk_cursor: 0,
                    phantom_cursor: false,
                    focus: Pane::Right,
                    skipped: found.skipped,
                    ..self
                }.say(
                    text::decimal_of(all_hunks(found.files).len()) + " hunk(s) from "@
                        + c.spec_short() + (if tui::picked_of(self.files) > 0 {
                        " ("@ + text::decimal_of(tui::picked_of(self.files))
                            + " earlier pick(s) discarded)"@
                    } else {
                        Seq::empty()
                    }) + " — Space to pick, then Tab to a destination and press t"@ + left_note(
                        found.skipped.len(),
                    ),
                )
            },
        }
    }
}

impl App {
    /// `e` — what opening the commit under the cursor needs. Pressing it while the
    /// hunk pane is focused must not discard every pick.
    pub fn commit_opening(&mut self) -> (o: Opening)
        requires
            old(self)@.wf(),
        ensures
            final(self)@.wf(),
            (final(self)@, o) == old(self)@.opening_commit(),
    {
        if self.focus != Pane::Commits || self.on_phantom() {
            self.status = "press e on a commit in the list to use that commit's hunks".to_owned();
            return Opening::Refused;
        }
        match self.cursor_commit() {
            None => Opening::Refused,
            Some(c) => {
                let open = match self.source {
                    Source::Commit(o) => o == c,
                    _ => false,
                };
                if open {
                    Opening::Reset
                } else {
                    Opening::Commit(c)
                }
            },
        }
    }

    /// `e` — take the commit's own diff as the hunk source, so that hunks can be moved
    /// OUT of it into another commit.
    pub fn open_commit_source(&mut self, c: Oid, read: CommitRead)
        requires
            old(self)@.wf(),
        ensures
            final(self)@.wf(),
            final(self)@ == old(self)@.on_commit(
                c,
                read@,
                found(Looking::Commit, read@.deltas(), Seq::empty()),
            ),
    {
        let ghost was = self@;
        let ghost rv = read@;
        let (parent, deltas) = match read {
            CommitRead::Gone => {
                return;
            },
            CommitRead::Root => {
                self.status = "root commit has no parent — can't move hunks out of it".to_owned();
                return;
            },
            CommitRead::Read { parent, deltas } => (parent, deltas),
        };
        let window: Vec<Oid> = Vec::new();
        let found = find_files(Looking::Commit, &deltas, &window);
        let ghost fv = found@;
        assert(window@ =~= Seq::empty());
        let left = note_left(found.skipped.len());
        assert(fv.skipped.len() == found.skipped@.len());
        if found.files.len() == 0 {
            self.status = c.short().concat(" has no text hunks to move").concat(&left);
            assert(self@ == was.on_commit(c, rv, fv));
            return;
        }
        let picked = self.picked();
        sound_files(&found.files);
        let flat = hunks_shown(&found.files);
        let n: usize = flat.len();
        proof {
            lemma_shown(was, Looking::Commit, absorb::deltas_view(deltas@), Seq::empty());
        }
        self.flat = flat;
        self.files = found.files;
        self.source = Source::Commit(c);
        self.source_base = parent;
        self.hunk_cursor = 0;
        self.phantom_cursor = false;
        self.focus = Pane::Right;
        self.skipped = found.skipped;
        let lost = if picked > 0 {
            " (".to_owned().concat(&text::decimal(picked)).concat(" earlier pick(s) discarded)")
        } else {
            String::new()
        };
        assert(picked == 0 ==> lost@ =~= Seq::empty());
        self.status = text::decimal(n).concat(" hunk(s) from ").concat(&c.short()).concat(
            &lost,
        ).concat(" — Space to pick, then Tab to a destination and press t").concat(&left);
        proof {
            let mid = AppV { files: fv.files, flat: all_hunks(fv.files), ..was };
            assert(self@.files == mid.files && self@.flat == mid.flat && self@.commits
                == mid.commits);
        }
        assert(self@ =~= was.on_commit(c, rv, fv));
    }
}

// ── the diff of the commit under the cursor ─────────────────────────────────

/// The lines of a text, without their newlines.
pub open spec fn bare_lines(s: Seq<char>) -> Seq<Seq<char>>
    decreases s.len(),
{
    if s.len() == 0 {
        seq![Seq::empty()]
    } else {
        let front = bare_lines(s.drop_last());
        if s.last() == '\n' {
            front.push(Seq::empty())
        } else {
            front.drop_last().push(front.last().push(s.last()))
        }
    }
}

/// The lines of a text, each with this mark.
pub open spec fn marking(mark: char, lines: Seq<Seq<char>>) -> Seq<(char, Seq<char>)> {
    lines.map_values(|l: Seq<char>| (mark, l))
}

/// Pieces of a diff as they are printed, as one marked line each: a file's header
/// comes as ONE piece of several lines.
pub open spec fn printed(pieces: Seq<(char, Seq<u8>)>) -> Seq<(char, Seq<char>)>
    decreases pieces.len(),
{
    if pieces.len() == 0 {
        Seq::empty()
    } else {
        let (mark, bytes) = pieces.last();
        printed(pieces.drop_last()) + marking(
            mark,
            bare_lines(patch::no_newline(text::lossy(bytes))),
        )
    }
}

/// Pieces by their contents.
pub open spec fn pieces_view(v: Seq<(char, Vec<u8>)>) -> Seq<(char, Seq<u8>)> {
    v.map_values(|p: (char, Vec<u8>)| (p.0, p.1@))
}

/// Append the lines of a text, each with this mark.
fn append_marked(out: &mut Vec<(char, String)>, mark: char, s: &str)
    ensures
        patch::marked(final(out)@) == patch::marked(old(out)@) + marking(mark, bare_lines(s@)),
{
    let v = text::chars_of(s);
    let ghost start = patch::marked(out@);
    let mut cur = String::new();
    let mut i: usize = 0;
    proof {
        assert(v@.take(0) =~= Seq::empty());
        assert(cur@ =~= Seq::empty());
        assert(start.push((mark, cur@)) =~= start + marking(mark, bare_lines(v@.take(0))));
    }
    while i < v.len()
        invariant
            0 <= i <= v@.len(),
            patch::marked(out@).push((mark, cur@)) == start + marking(
                mark,
                bare_lines(v@.take(i as int)),
            ),
            bare_lines(v@.take(i as int)).len() > 0,
            bare_lines(v@.take(i as int)).last() == cur@,
        decreases v@.len() - i,
    {
        let ghost lines = bare_lines(v@.take(i as int));
        let ghost before = patch::marked(out@);
        let ghost was = cur@;
        let c = v[i];
        proof {
            assert(v@.take(i + 1).drop_last() =~= v@.take(i as int));
            assert(v@.take(i + 1).last() == c);
        }
        if c == '\n' {
            out.push((mark, cur));
            cur = String::new();
            proof {
                assert(cur@ =~= Seq::empty());
                assert(patch::marked(out@) =~= before.push((mark, was)));
                assert(patch::marked(out@).push((mark, cur@)) =~= start + marking(
                    mark,
                    lines.push(Seq::empty()),
                ));
            }
        } else {
            cur.push(c);
            proof {
                let next = lines.drop_last().push(was.push(c));
                assert(before.push((mark, was)).drop_last() =~= before);
                assert((start + marking(mark, lines)).drop_last() =~= start + marking(
                    mark,
                    lines.drop_last(),
                ));
                assert(before.push((mark, cur@)) =~= start + marking(mark, next));
            }
        }
        i += 1;
    }
    assert(v@.take(i as int) =~= s@);
    let ghost before = patch::marked(out@);
    let ghost was = cur@;
    out.push((mark, cur));
    assert(patch::marked(out@) =~= before.push((mark, was)));
}

/// See [`printed`].
pub fn commit_diff_lines(pieces: &Vec<(char, Vec<u8>)>) -> (out: Vec<(char, String)>)
    ensures
        patch::marked(out@) == printed(pieces_view(pieces@)),
{
    let ghost ps = pieces_view(pieces@);
    let mut out: Vec<(char, String)> = Vec::new();
    let mut i: usize = 0;
    assert(patch::marked(out@) =~= printed(ps.take(0)));
    while i < pieces.len()
        invariant
            ps == pieces_view(pieces@),
            0 <= i <= pieces@.len(),
            patch::marked(out@) == printed(ps.take(i as int)),
        decreases pieces@.len() - i,
    {
        proof {
            assert(ps.take(i + 1).drop_last() =~= ps.take(i as int));
            assert(ps.take(i + 1).last() == (pieces@[i as int].0, pieces@[i as int].1@));
        }
        let raw = text::from_utf8_lossy(&pieces[i].1);
        append_marked(&mut out, pieces[i].0, &patch::chomp(&raw));
        i += 1;
    }
    assert(ps.take(i as int) =~= ps);
    out
}

impl AppV {
    /// The commit whose diff is to be shown and has not been read.
    pub open spec fn unread(self) -> Option<Oid> {
        if self.commit_cursor < self.commits.len() && self.commits[self.commit_cursor as int].diff
            is None {
            Some(self.commits[self.commit_cursor as int].oid)
        } else {
            None
        }
    }

    /// With the diff of the commit under the cursor.
    pub open spec fn with_diff(self, lines: Seq<(char, Seq<char>)>) -> AppV {
        if self.commit_cursor < self.commits.len() {
            let i = self.commit_cursor as int;
            AppV {
                commits: self.commits.update(
                    i,
                    RowV { diff: Some(lines), ..self.commits[i] },
                ),
                ..self
            }
        } else {
            self
        }
    }
}

impl App {
    /// The commit whose diff is to be shown and has not been read. Diffs are read on
    /// demand: only the row under the cursor is ever shown.
    pub fn ensure_diff(&self) -> (c: Option<Oid>)
        ensures
            c == self@.unread(),
    {
        if self.commit_cursor < self.commits.len() {
            assert(self@.commits[self.commit_cursor as int]
                == self.commits@[self.commit_cursor as int]@);
            if self.commits[self.commit_cursor].diff.is_none() {
                return Some(self.commits[self.commit_cursor].oid);
            }
        }
        None
    }

    /// Keep the diff of the commit under the cursor.
    pub fn keep_diff(&mut self, lines: Vec<(char, String)>)
        requires
            old(self)@.wf(),
        ensures
            final(self)@.wf(),
            final(self)@ == old(self)@.with_diff(patch::marked(lines@)),
    {
        if self.commit_cursor < self.commits.len() {
            let i: usize = self.commit_cursor;
            let ghost was = self@.commits;
            assert(was[i as int] == self.commits@[i as int]@);
            self.commits[i].diff = Some(lines);
            assert(self@.commits =~= was.update(
                i as int,
                RowV { diff: Some(patch::marked(lines@)), ..was[i as int] },
            ));
        }
    }
}

} // verus!
