//! What the screen shows of a repository.

use crate::absorb::{DeltaKind, DeltaV};
use crate::inference;
use crate::oid::Oid;
use crate::ops::Opts;
use crate::patch;
use crate::patch::HunkV;
use crate::text;
use crate::tui::source;
use crate::tui::source::{CommitReadV, EntryV, FoundV, Indexed, Looking, Opening, SnapshotV, WorktreeV};
use crate::tui::{AppV, FileV, Pane, RowV, ShapeV, Source};
use vstd::prelude::*;

verus! {

// ── files ───────────────────────────────────────────────────────────────────

/// The file is shown as it changed: its path, its old text, its hunks and its new mode, with
/// as many picks and targets as hunks.
pub open spec fn shows(f: FileV, d: DeltaV, path: Seq<char>, hunks: Seq<HunkV>) -> bool {
    &&& f.path == path
    &&& f.old_full == vstd::utf8::decode_utf8(d.old)
    &&& f.hunks == hunks
    &&& f.mode == d.mode
    &&& f.selected.len() == hunks.len()
    &&& f.targets.len() == hunks.len()
    &&& f.inferred == f.targets
}

/// New work is shown with every hunk picked, each on its way to the newest commit that owns
/// its lines; where blame cannot tell, to none. The hunks of a commit are shown with none
/// picked, and none on its way. What did not change is not shown, and what is not text, or
/// has no hunks, cannot be.
pub proof fn a_changed_file_is_shown_with_its_hunks(
    d: DeltaV,
    path: Seq<char>,
    hunks: Seq<HunkV>,
    window: Seq<Oid>,
)
    ensures
        ({
            let e = source::entry_of(d, path, hunks, window);
            let m = source::movable_of(d, path, hunks);
            let folds = vstd::utf8::valid_utf8(d.old) && vstd::utf8::valid_utf8(d.new)
                && hunks.len() > 0;
            &&& e is Nothing <==> d.old == d.new
            &&& m is Nothing <==> d.old == d.new
            &&& e is File <==> d.old != d.new && folds
            &&& m is File <==> d.old != d.new && folds
            &&& e matches EntryV::File(f) ==> shows(f, d, path, hunks) && forall|i: int|
                0 <= i < hunks.len() ==> {
                    &&& #[trigger] f.selected[i]
                    &&& f.targets[i] == match d.blame {
                        Ok(b) => inference::newest_owner(b, patch::blamed(hunks[i]), window),
                        Err(_) => None,
                    }
                }
            &&& m matches EntryV::File(f) ==> shows(f, d, path, hunks) && forall|i: int|
                0 <= i < hunks.len() ==> !(#[trigger] f.selected[i]) && f.targets[i] is None
        }),
{
}

/// A file keeps the mode of its changed side; one whose mode is not told is a plain file.
pub proof fn a_file_keeps_its_mode(mode: u32)
    ensures
        source::mode_of(0) == 0o100644,
        0 < mode <= i32::MAX ==> source::mode_of(mode) == mode,
{
}

/// One more path adds one file at most, or one path that cannot be folded, at the end, and
/// changes nothing before it. New work that is deleted or otherwise not a text change is
/// such a path; of a commit it is passed over. A file that is not tracked counts only where
/// the worktree is read.
pub proof fn each_path_is_shown_skipped_or_passed_over(
    looking: Looking,
    deltas: Seq<DeltaV>,
    diffs: Seq<Option<Seq<HunkV>>>,
    window: Seq<Oid>,
    n: int,
)
    requires
        0 <= n,
    ensures
        ({
            let was = source::found_in(looking, deltas, diffs, window, n);
            let now = source::found_in(looking, deltas, diffs, window, n + 1);
            let d = deltas[n];
            let plain = d.kind == DeltaKind::Modified || d.kind == DeltaKind::Added || (d.kind
                == DeltaKind::Untracked && looking == Looking::Unstaged);
            let texts = vstd::utf8::valid_utf8(d.old) && vstd::utf8::valid_utf8(d.new);
            let changed = d.old != d.new;
            let shown = plain && changed && texts && (diffs[n] matches Some(h) && h.len() > 0);
            let skipped = if plain {
                changed && (diffs[n] matches Some(h) && (h.len() == 0 || !texts))
            } else {
                looking != Looking::Commit
            };
            &&& d.path is Some && shown ==> {
                &&& now.skipped == was.skipped
                &&& now.files.len() == was.files.len() + 1
                &&& now.files.drop_last() == was.files
                &&& shows(now.files.last(), d, d.path->0, diffs[n]->0)
                &&& forall|i: int|
                    0 <= i < diffs[n]->0.len() ==> #[trigger] now.files.last().selected[i] == (
                    looking != Looking::Commit)
            }
            &&& d.path is Some && skipped ==> now.files == was.files && now.skipped
                == was.skipped.push(d.path->0)
            &&& d.path is None || (!shown && !skipped) ==> now == was
        }),
{
    let was = source::found_in(looking, deltas, diffs, window, n);
    let now = source::found_in(looking, deltas, diffs, window, n + 1);
    if now.files.len() > was.files.len() {
        assert(now.files.drop_last() =~= was.files);
    }
}

/// Nothing is found where nothing changed.
pub proof fn no_change_shows_nothing(looking: Looking, window: Seq<Oid>)
    ensures
        source::found(looking, seq![], window).files.len() == 0,
        source::found(looking, seq![], window).skipped.len() == 0,
{
}

// ── commits ─────────────────────────────────────────────────────────────────

/// A commit is shown with its own id and summary, whether it is signed, and the branches
/// that are at it.
pub proof fn a_commit_is_shown_with_its_branches(
    c: Oid,
    i: crate::store::CommitV,
    names: Seq<(Oid, Seq<char>)>,
)
    ensures
        source::as_row((c, i), names).oid == c,
        source::as_row((c, i), names).signed == i.signed,
        i.summary matches Some(s) ==> source::as_row((c, i), names).summary == s,
        i.summary is None ==> source::as_row((c, i), names).summary.len() == 0,
        source::as_row((c, i), names).diff is None,
        source::as_row((c, i), names).refs == names.filter(
            |n: (Oid, Seq<char>)| n.0 == c,
        ).map_values(|n: (Oid, Seq<char>)| n.1),
{
    lemma_names(names, c);
}

proof fn lemma_names(names: Seq<(Oid, Seq<char>)>, c: Oid)
    ensures
        source::names_at(names, c) == names.filter(|n: (Oid, Seq<char>)| n.0 == c).map_values(
            |n: (Oid, Seq<char>)| n.1,
        ),
    decreases names.len(),
{
    reveal(Seq::filter);
    let f = |n: (Oid, Seq<char>)| n.0 == c;
    let g = |n: (Oid, Seq<char>)| n.1;
    if names.len() > 0 {
        lemma_names(names.drop_last(), c);
        assert(source::names_at(names, c) =~= names.filter(f).map_values(g));
    } else {
        assert(source::names_at(names, c) =~= names.filter(f).map_values(g));
    }
}

/// The screen shows the stack newest first: all of it where a base is given, and otherwise
/// the newest fifty at most. What is shown is what may be rewritten: it is bounded by the
/// base, or by the parent of the oldest that is shown.
pub proof fn the_newest_commits_are_shown(snap: SnapshotV, base: Option<Oid>)
    ensures
        ({
            let all = snap.stack.rows;
            let rows = snap.rows(base);
            let shown: int = if base is None && all.len() > 50 {
                50
            } else {
                all.len() as int
            };
            &&& rows.len() == shown
            &&& forall|i: int|
                0 <= i < shown ==> #[trigger] rows[i] == source::as_row(
                    all[all.len() - 1 - i],
                    snap.decorations,
                )
            &&& snap.window(base).len() == shown
            &&& forall|i: int|
                0 <= i < shown ==> #[trigger] snap.window(base)[i] == all[all.len() - shown + i].0
            &&& shown == all.len() ==> snap.bound(base) == base
            &&& shown < all.len() ==> {
                let oldest = all[all.len() - 50].1;
                if oldest.parents.len() == 0 {
                    snap.bound(base) is None
                } else {
                    snap.bound(base) == Some(oldest.parents[0])
                }
            }
        }),
{
}

/// A fresh screen shows the staged change: its files and all their hunks, with the focus on
/// the newest commit. Nothing is marked, armed, asked or filtered. The tree counts as dirty
/// unless it is known to be clean.
pub proof fn a_fresh_screen_shows_the_staged_change(
    snap: SnapshotV,
    base: Option<Oid>,
    opts: Opts,
    found: FoundV,
)
    ensures
        ({
            let s = source::loaded(snap, base, opts, found);
            &&& s.branch == snap.branch && s.head == snap.head && s.opts == opts
            &&& s.commits == snap.rows(base) && s.base == snap.bound(base)
            &&& s.files == found.files && s.skipped == found.skipped
            &&& s.flat == source::all_hunks(found.files)
            &&& s.move_files == snap.paths && s.filter.len() == 0 && s.move_target is None
            &&& s.source == Source::Staged && s.source_base == snap.head
            &&& s.focus == Pane::Commits && s.commit_cursor == 0 && s.hunk_cursor == 0
                && s.move_cursor == 0 && !s.phantom_cursor
            &&& s.shape == ShapeV::Unchanged && s.input is None && !s.help && !s.applied
                && !s.pending_apply && !s.pending_quit
            &&& !s.tree_dirty <==> (snap.statuses matches Some(v) && v.len() == 0)
        }),
{
}

/// A screen that is read anew keeps the user's place: the focus, and the cursors as far as
/// the lists still go. Everything else is fresh.
pub proof fn a_reload_keeps_the_place(s: AppV, fresh: AppV, status: Seq<char>)
    requires
        fresh.commits.len() <= usize::MAX,
        fresh.flat.len() <= usize::MAX,
    ensures
        ({
            let n = s.reloaded(fresh, status);
            &&& n.focus == s.focus && n.status == status
            &&& s.commit_cursor < fresh.commits.len() ==> n.commit_cursor == s.commit_cursor
            &&& s.hunk_cursor < fresh.flat.len() ==> n.hunk_cursor == s.hunk_cursor
            &&& s.commit_cursor >= fresh.commits.len() > 0 ==> n.commit_cursor
                == fresh.commits.len() - 1
            &&& s.hunk_cursor >= fresh.flat.len() > 0 ==> n.hunk_cursor == fresh.flat.len() - 1
            &&& n == (AppV {
                focus: n.focus,
                status: n.status,
                commit_cursor: n.commit_cursor,
                hunk_cursor: n.hunk_cursor,
                ..fresh
            })
        }),
{
}

// ── the other sources ───────────────────────────────────────────────────────

/// The worktree becomes the source only where it could be read and something in it can be
/// folded; its hunks are then picked on top of the commit that holds the index.
pub proof fn the_worktree_becomes_the_source(
    s: AppV,
    read: WorktreeV,
    found: FoundV,
    base: Oid,
)
    ensures
        s.no_worktree(read, found) is None <==> read is Read && found.files.len() > 0,
        ({
            let n = s.on_worktree(found, Indexed::Done(base));
            &&& n.source == Source::Unstaged && n.source_base == base
            &&& n.files == found.files && n.flat == source::all_hunks(found.files) && n.skipped
                == found.skipped
            &&& n.hunk_cursor == 0 && n.focus == Pane::Right
            &&& n.commits == s.commits && n.shape == s.shape && n.head == s.head && n.base == s.base
        }),
        ({
            let n = s.on_worktree(found, Indexed::Failed);
            n == (AppV { status: n.status, ..s })
        }),
        s.on_worktree(found, Indexed::NoHead) == s,
{
}

/// `e` opens the commit under the cursor, from the commit list; on the one that is open it
/// goes back.
pub proof fn e_opens_the_commit_under_the_cursor(s: AppV)
    ensures
        ({
            let (n, o) = s.opening_commit();
            let on_new = s.source != Source::Files && s.phantom_cursor;
            let here = s.focus == Pane::Commits && !on_new && s.commit_cursor < s.commits.len();
            let c = s.commits[s.commit_cursor as int].oid;
            &&& n == (AppV { status: n.status, ..s })
            &&& !here ==> o == Opening::Refused
            &&& here && s.source == Source::Commit(c) ==> o == Opening::Reset
            &&& here && s.source != Source::Commit(c) ==> o == Opening::Commit(c)
        }),
{
}

/// The hunks of a commit become the source only where it has a parent and text hunks; they
/// are picked on top of that parent.
pub proof fn a_commit_becomes_the_source(s: AppV, c: Oid, read: CommitReadV, found: FoundV)
    ensures
        ({
            let n = s.on_commit(c, read, found);
            match read {
                CommitReadV::Read { parent, .. } if found.files.len() > 0 => {
                    &&& n.source == Source::Commit(c) && n.source_base == parent
                    &&& n.files == found.files && n.flat == source::all_hunks(found.files)
                        && n.skipped == found.skipped
                    &&& n.hunk_cursor == 0 && n.focus == Pane::Right && !n.phantom_cursor
                    &&& n.commits == s.commits && n.shape == s.shape && n.head == s.head && n.base
                        == s.base
                },
                _ => n == (AppV { status: n.status, ..s }),
            }
        }),
{
}

// ── the diff of a commit ────────────────────────────────────────────────────

/// The lines of a printed piece hold no newline, and joined by newlines they are the piece.
pub proof fn a_printed_piece_is_its_lines(s: Seq<char>)
    ensures
        ({
            let lines = source::bare_lines(s);
            &&& lines.len() > 0
            &&& forall|i: int, j: int|
                0 <= i < lines.len() && 0 <= j < lines[i].len() ==> #[trigger] lines[i][j] != '\n'
            &&& text::joined(lines, seq!['\n']) == s
        }),
    decreases s.len(),
{
    let lines = source::bare_lines(s);
    let sep = seq!['\n'];
    if s.len() == 0 {
        assert(text::joined(lines, sep) =~= s);
    } else {
        let front = s.drop_last();
        a_printed_piece_is_its_lines(front);
        let was = source::bare_lines(front);
        assert(front.push(s.last()) =~= s);
        if s.last() == '\n' {
            assert(lines.drop_last() =~= was);
            assert(text::joined(lines, sep) =~= text::joined(was, sep) + sep);
            assert(text::joined(was, sep) + sep =~= s);
        } else {
            let last = was.last().push(s.last());
            assert(lines =~= was.drop_last().push(last));
            assert(lines.drop_last() =~= was.drop_last());
            if was.len() == 1 {
                assert(text::joined(lines, sep) =~= s);
            } else {
                assert(text::joined(lines, sep) =~= text::joined(was.drop_last(), sep) + sep
                    + last);
                assert(text::joined(was, sep) == text::joined(was.drop_last(), sep) + sep
                    + was.last());
                assert(text::joined(lines, sep) =~= text::joined(was, sep).push(s.last()));
            }
            assert forall|i: int, j: int|
                0 <= i < lines.len() && 0 <= j < lines[i].len() implies #[trigger] lines[i][j]
                != '\n' by {
                if i < was.len() - 1 {
                    assert(was[i][j] != '\n');
                } else if j < was.last().len() {
                    assert(was[was.len() - 1][j] != '\n');
                }
            }
        }
    }
}

/// A diff that was read is kept with the commit under the cursor, and with no other; it is
/// not read again.
pub proof fn a_diff_is_read_once(s: AppV, lines: Seq<(char, Seq<char>)>)
    requires
        s.wf(),
        s.commits.len() > 0,
    ensures
        ({
            let n = s.with_diff(lines);
            let at = s.commit_cursor as int;
            &&& s.unread() is Some <==> s.commits[at].diff is None
            &&& s.unread() matches Some(c) ==> c == s.commits[at].oid
            &&& n.unread() is None
            &&& n.commits.len() == s.commits.len()
            &&& n.commits[at] == (RowV { diff: Some(lines), ..s.commits[at] })
            &&& forall|x: int|
                0 <= x < s.commits.len() && x != at ==> #[trigger] n.commits[x] == s.commits[x]
            &&& n == (AppV { commits: n.commits, ..s })
        }),
{
}

} // verus!
