//! What is drawn of the screen's state.

use crate::oid::Oid;
use crate::text;
use crate::tui;
use crate::tui::labels;
use crate::tui::routes;
use crate::tui::view;
use crate::tui::view::{Area, Column, LineV, Tone};
use crate::tui::{AppV, FileV, Pane, PromptV, RowV, ShapeV, Source};
use vstd::prelude::*;

verus! {

// ── the commit list ─────────────────────────────────────────────────────────

/// The commit list has a row for each commit, in order; above them is the row of the new
/// commit, but in the file list. The row under the cursor is the selected one.
pub proof fn the_commit_list_has_a_row_for_each_commit(s: AppV)
    requires
        s.wf(),
        s.commits.len() < usize::MAX,
    ensures
        ({
            let l = s.commits_shown();
            let extra: int = if s.source == Source::Files {
                0
            } else {
                1
            };
            &&& l.items.len() == s.commits.len() + extra
            &&& forall|i: int|
                0 <= i < s.commits.len() ==> #[trigger] l.items[i + extra] == seq![
                    s.commit_row(s.commits[i]),
                ]
            &&& extra == 1 ==> l.items[0] == seq![s.phantom_row()]
            &&& l.focused <==> s.focus == Pane::Commits
            &&& extra == 1 && s.phantom_cursor ==> l.selected == Some(0usize)
            &&& s.commits.len() > 0 && !(extra == 1 && s.phantom_cursor) ==> (
            l.selected matches Some(x) && x == s.commit_cursor + extra)
        }),
{
}

/// A commit's row shows its id, its summary, how many picked hunks go to it, and the
/// branches at it.
pub proof fn a_row_shows_its_commit(s: AppV, r: RowV)
    ensures
        ({
            let l = s.commit_row(r);
            let n = tui::routes_of(s.files).filter(|o: Oid| o == r.oid).len();
            &&& l.len() == 5
            &&& l[1].1 == if n == 0 {
                "  "@
            } else if n < 10 {
                text::decimal_of(n) + " "@
            } else {
                text::decimal_of(n)
            }
            &&& l[2].1 == r.oid.spec_short() + " "@
            &&& l[3].1 == r.summary
            &&& r.refs.len() == 0 ==> l[4].1.len() == 0
            &&& r.refs.len() > 0 ==> l[4].1 == " ("@ + text::joined(r.refs, ", "@) + ")"@
        }),
{
    lemma_times(tui::routes_of(s.files), r.oid);
}

proof fn lemma_times(r: Seq<Oid>, t: Oid)
    ensures
        labels::times(r, t) == r.filter(|o: Oid| o == t).len(),
    decreases r.len(),
{
    reveal(Seq::filter);
    if r.len() > 0 {
        lemma_times(r.drop_last(), t);
    }
}

/// The mark of a commit tells what is to become of it: dropped, squashed, the target of the
/// hunk under the cursor, or the source of the hunks, in that order.
pub proof fn a_mark_tells_what_becomes_of_a_commit(s: AppV, c: Oid)
    ensures
        ({
            let m = s.mark(c).1;
            let shaped = s.shape == ShapeV::Drop(c) || s.shape == ShapeV::Squash(c);
            let aimed = s.active_target() == Some(c);
            &&& s.shape == ShapeV::Drop(c) ==> m == "✗"@
            &&& s.shape == ShapeV::Squash(c) ==> m == "⇣"@
            &&& !shaped && aimed ==> m == "◀"@
            &&& !shaped && !aimed && s.source == Source::Commit(c) ==> m == "⌁"@
            &&& !shaped && !aimed && s.source != Source::Commit(c) ==> m == " "@
        }),
{
}

/// The target that is marked is that of the hunk under the cursor; in the file list it is
/// where the file goes.
pub proof fn the_marked_target_is_that_under_the_cursor(s: AppV)
    ensures
        s.source == Source::Files ==> s.active_target() == s.move_target,
        s.source != Source::Files && s.hunk_cursor < s.flat.len() ==> s.active_target()
            == s.files[s.flat[s.hunk_cursor as int].0 as int].targets[s.flat[s.hunk_cursor as int].1 as int],
        s.source != Source::Files && s.hunk_cursor >= s.flat.len() ==> s.active_target() is None,
{
}

// ── hunks ───────────────────────────────────────────────────────────────────

/// The hunk list has an item for each hunk, in order. Each names whether it is picked, its
/// file and where it goes; the one under the cursor shows its lines too, and no other.
pub proof fn the_hunk_list_has_an_item_for_each_hunk(s: AppV, wide: bool, i: int)
    requires
        s.wf(),
        0 <= i < s.flat.len(),
    ensures
        ({
            let l = s.hunks_shown(wide);
            let (x, h) = s.flat[i];
            let f = s.files[x as int];
            let row = l.items[i][0];
            &&& l.items.len() == s.flat.len()
            &&& l.selected == Some(s.hunk_cursor)
            &&& l.focused <==> s.focus == Pane::Right
            &&& row[0].1 == if f.selected[h as int] {
                "[x] "@
            } else {
                "[ ] "@
            }
            &&& row[1].1 == tui::truncated(
                f.path,
                if wide {
                    22
                } else {
                    14
                },
            ) + " "@
            &&& row[3].1 == "  → "@ + s.target_label(f.targets[h as int])
            &&& i != s.hunk_cursor ==> l.items[i].len() == 1
            &&& i == s.hunk_cursor && h < f.hunks.len() ==> l.items[i].skip(1) == view::hunk_body(
                f.hunks[h as int].lines,
            )
        }),
{
    let (x, h) = s.flat[i];
    let f = s.files[x as int];
    if i == s.hunk_cursor && h < f.hunks.len() {
        assert(s.hunk_item(i, wide).skip(1) =~= view::hunk_body(f.hunks[h as int].lines));
    }
}

/// A line of a diff is shown with its mark, and toned by it. Of a hunk the first six are, and
/// where there are more, how many.
pub proof fn the_first_lines_of_a_hunk_are_shown(lines: Seq<(char, Seq<char>)>)
    ensures
        ({
            let b = view::hunk_body(lines);
            &&& lines.len() <= 6 ==> b.len() == lines.len()
            &&& lines.len() > 6 ==> b.len() == 7 && b[6] == seq![
                (
                    Tone::Dim,
                    "  … +"@ + text::decimal_of((lines.len() - 6) as nat) + " more line(s)"@,
                ),
            ]
            &&& forall|i: int|
                0 <= i < lines.len() && i < 6 ==> #[trigger] b[i] == marked_line(lines[i])
        }),
{
}

/// A line with its mark: green where it is added, red where it is removed.
pub open spec fn marked_line(l: (char, Seq<char>)) -> LineV {
    match l.0 {
        '+' => seq![(Tone::Added, "+"@ + l.1)],
        '-' => seq![(Tone::Removed, "-"@ + l.1)],
        _ => seq![(Tone::Plain, " "@ + l.1)],
    }
}

/// A target is shown by its id and summary; the new commit and no target at all by words.
pub proof fn a_target_is_shown_by_its_summary(s: AppV, c: Oid)
    ensures
        !routes::is_new(c) ==> s.target_label(Some(c)) == c.spec_short() + " "@ + tui::truncated(
            s.summary_of(c),
            28,
        ),
        routes::is_new(c) ==> s.target_label(Some(c)) == "+ new commit"@,
        s.target_label(None) == if s.source is Commit {
            "(pick a destination)"@
        } else {
            "(no home)"@
        },
{
}

/// The summary that is shown for a commit is that of its row.
pub proof fn a_summary_is_that_of_its_row(s: AppV, i: int)
    requires
        0 <= i < s.commits.len(),
        forall|x: int, y: int|
            0 <= x < y < s.commits.len() ==> (#[trigger] s.commits[x]).oid != (
            #[trigger] s.commits[y]).oid,
    ensures
        s.summary_of(s.commits[i].oid) == s.commits[i].summary,
{
    routes::a_commit_is_found_by_its_first_row(s.commits, s.commits[i].oid, 0);
}

// ── the diff ────────────────────────────────────────────────────────────────

/// The diff pane shows the commit under the cursor, line by line; on the row of the new
/// commit it shows what that would hold.
pub proof fn the_diff_is_that_of_the_commit_under_the_cursor(s: AppV)
    requires
        s.wf(),
        s.commits.len() > 0,
    ensures
        ({
            let t = s.diff_shown();
            let row = s.commits[s.commit_cursor as int];
            let fresh = s.source != Source::Files && s.phantom_cursor;
            &&& fresh ==> t == s.phantom_diff()
            &&& !fresh ==> {
                &&& t.scroll == s.diff_scroll
                &&& row.diff matches Some(d) ==> (d.len() > 0 ==> t.lines.len() == d.len()
                    && forall|i: int|
                    0 <= i < d.len() ==> #[trigger] t.lines[i] == if d[i].0 == 'F' || d[i].0 == 'H' {
                        seq![(Tone::Path, d[i].1)]
                    } else {
                        marked_line(d[i])
                    })
            }
        }),
{
}

/// The new commit is shown with the hunks that go into it: each that is picked and sent there,
/// under its path, in order.
pub proof fn the_new_commit_is_shown_with_its_hunks(s: AppV, f: FileV, n: int)
    requires
        f.wf(),
        0 <= n <= f.selected.len(),
        f.hunks.len() == f.selected.len(),
    ensures
        s.going_in(f, n) == Seq::new(
            n as nat,
            |i: int| (f.selected[i] && f.targets[i] == Some(tui::phantom()), f.hunks[i].header),
        ).filter(|h: (bool, Seq<char>)| h.0).map_values(
            |h: (bool, Seq<char>)| seq![(Tone::Path, f.path + " "@), (Tone::Dim, h.1)],
        ),
    decreases n,
{
    reveal(Seq::filter);
    let all = Seq::new(
        n as nat,
        |i: int| (f.selected[i] && f.targets[i] == Some(tui::phantom()), f.hunks[i].header),
    );
    let p = |h: (bool, Seq<char>)| h.0;
    let g = |h: (bool, Seq<char>)| seq![(Tone::Path, f.path + " "@), (Tone::Dim, h.1)];
    if n > 0 {
        the_new_commit_is_shown_with_its_hunks(s, f, n - 1);
        assert(all.drop_last() =~= Seq::new(
            (n - 1) as nat,
            |i: int| (f.selected[i] && f.targets[i] == Some(tui::phantom()), f.hunks[i].header),
        ));
        assert(s.going_in(f, n) =~= all.filter(p).map_values(g));
    } else {
        assert(s.going_in(f, n) =~= all.filter(p).map_values(g));
    }
}

// ── the rest ────────────────────────────────────────────────────────────────

/// The file list shows the files that the filter leaves, in order, and one of them is
/// selected if there is any.
pub proof fn the_file_list_shows_what_the_filter_leaves(s: AppV)
    requires
        s.visible_files().len() <= usize::MAX,
    ensures
        ({
            let l = s.files_shown();
            let v = s.visible_files();
            &&& l.items.len() == v.len()
            &&& forall|i: int|
                0 <= i < v.len() ==> #[trigger] l.items[i] == seq![seq![(Tone::Plain, v[i])]]
            &&& l.selected is Some <==> v.len() > 0
            &&& s.move_cursor < v.len() ==> l.selected == Some(s.move_cursor)
            &&& l.selected matches Some(x) ==> x < v.len()
        }),
{
}

/// The last line is the prompt while one is open, and otherwise what the screen says; armed,
/// it is toned so.
pub proof fn the_last_line_is_the_status_or_the_prompt(s: AppV, p: PromptV)
    ensures
        s.status_shown().len() == 3,
        s.input == Some(p) ==> s.status_shown()[2][0].1 == p.label + ": "@ && s.status_shown()[2][1].1
            == p.text + "▏"@,
        s.input is None ==> s.status_shown()[2].len() == 1 && s.status_shown()[2][0].1 == s.status,
        s.input is None && s.pending_apply ==> s.status_shown()[2][0].0 == Tone::Armed,
{
}

/// What went wrong is not toned as something that went well.
pub proof fn a_conflict_is_toned_as_one(status: Seq<char>)
    ensures
        text::holds(view::lower(status), "conflict"@) || text::holds(view::lower(status), "error"@)
            || text::holds(view::lower(status), "can't"@) || text::holds(
            view::lower(status),
            "cannot"@,
        ) || text::holds(view::lower(status), "needs"@) || text::holds(
            view::lower(status),
            "failed"@,
        ) <==> view::tone_of(status, false) == Tone::Bad,
        view::tone_of(status, false) == Tone::Good ==> text::holds(
            view::lower(status),
            "now at"@,
        ) || text::holds(view::lower(status), "clean, would"@),
        view::tone_of(status, true) == Tone::Armed,
{
}

/// Letters are compared in lower case: each of the twenty-six large ones becomes the small
/// one, and every other character stays.
pub proof fn lower_case_changes_large_letters_only(s: Seq<char>, i: int)
    requires
        0 <= i < s.len(),
    ensures
        view::lower(s).len() == s.len(),
        'A' <= s[i] <= 'Z' ==> view::lower(s)[i] as int == s[i] as int + 32,
        !('A' <= s[i] <= 'Z') ==> view::lower(s)[i] == s[i],
{
}

/// The right column has the hunks or the files and the diff below; with no hunks it has the
/// diff alone while the commits have the focus, and the hunk list otherwise.
pub proof fn the_right_column_shows_what_there_is(s: AppV)
    ensures
        s.column() == Column::FilesAndDiff <==> s.source == Source::Files,
        s.column() == Column::HunksAndDiff <==> s.source != Source::Files && s.flat.len() > 0,
        s.column() == Column::Diff <==> s.source != Source::Files && s.flat.len() == 0 && s.focus
            == Pane::Commits,
{
}

/// The help stands in the middle of the screen and never reaches over its edge. It takes as
/// many lines as it has, and two for its frame, where they fit.
pub proof fn the_help_stands_in_the_middle(lines: usize, screen: Area, a: Area)
    requires
        screen.x + screen.width <= u16::MAX,
        screen.y + screen.height <= u16::MAX,
        call_ensures(view::help_area, (lines, screen), a),
    ensures
        screen.x <= a.x && a.x + a.width <= screen.x + screen.width,
        screen.y <= a.y && a.y + a.height <= screen.y + screen.height,
        a.width <= 64,
        screen.width >= 66 ==> a.width == 64,
        lines + 2 <= screen.height ==> a.height == lines + 2,
        0 <= (screen.x + screen.width - a.x - a.width) - (a.x - screen.x) <= 1,
        0 <= (screen.y + screen.height - a.y - a.height) - (a.y - screen.y) <= 1,
{
}

} // verus!
