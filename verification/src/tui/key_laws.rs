//! What every key does to the screen.

use crate::git::FileFavor;
use crate::oid::Oid;
use crate::ops::Opts;
use crate::text;
use crate::tui;
use crate::tui::keys;
use crate::tui::{AppV, Ask, FileV, Flow, Key, Pane, PromptV, ShapeV, Source};
use vstd::prelude::*;

verus! {

/// The screen listens to keys itself: no prompt is open, and no help is up.
pub open spec fn listens(s: AppV) -> bool {
    s.wf() && s.input is None && !s.help
}

/// The cursor of the commit list is on the row of the new commit.
pub open spec fn on_new_row(s: AppV) -> bool {
    s.source != Source::Files && s.phantom_cursor
}

/// The commit that the cursor is on.
pub open spec fn commit_here(s: AppV) -> Option<Oid> {
    if !on_new_row(s) && s.commit_cursor < s.commits.len() {
        Some(s.commits[s.commit_cursor as int].oid)
    } else {
        None
    }
}

/// The hunk at `h` of the file at `f` is the one that the cursor is on.
pub open spec fn is_here(s: AppV, f: int, h: int) -> bool {
    s.hunk_cursor < s.flat.len() && s.flat[s.hunk_cursor as int].0 == f
        && s.flat[s.hunk_cursor as int].1 == h
}

/// The two screens differ in nothing but their status line and whether an apply or a quit
/// is armed.
pub open spec fn same_but_for_words(a: AppV, b: AppV) -> bool {
    b == (AppV {
        status: b.status,
        pending_apply: b.pending_apply,
        pending_quit: b.pending_quit,
        ..a
    })
}

/// Two files differ in nothing but what is picked and where it goes.
pub open spec fn same_file(a: FileV, b: FileV) -> bool {
    &&& b.path == a.path && b.old_full == a.old_full && b.hunks == a.hunks && b.mode == a.mode
    &&& b.inferred == a.inferred
    &&& b.selected.len() == a.selected.len()
    &&& b.targets.len() == a.targets.len()
}

/// Two screens show the same files, up to what is picked and where it goes, and differ in
/// nothing else but words.
pub open spec fn same_but_for_picks(a: AppV, b: AppV) -> bool {
    &&& b.files.len() == a.files.len()
    &&& forall|x: int| 0 <= x < a.files.len() ==> same_file(a.files[x], #[trigger] b.files[x])
    &&& same_but_for_words(AppV { files: b.files, ..a }, b)
}

// ── picking and routing ─────────────────────────────────────────────────────

/// The hunk under the cursor is turned, in the hunk pane, and no other; none goes elsewhere.
pub open spec fn turns_here(s: AppV, n: AppV) -> bool {
    forall|x: int, y: int|
        0 <= x < s.files.len() && 0 <= y < s.files[x].selected.len() ==> {
            let turned = s.focus == Pane::Right && s.source != Source::Files && is_here(s, x, y);
            &&& (#[trigger] n.files[x].selected[y]) == (s.files[x].selected[y] != turned)
            &&& n.files[x].targets == s.files[x].targets
        }
}

/// Space turns the hunk under the cursor, and no other: what was picked is not, and what
/// was not is. It works in the hunk pane only.
pub proof fn space_turns_the_hunk_under_the_cursor(s: AppV)
    requires
        listens(s),
    ensures
        ({
            let (n, flow) = keys::pressed(s, Key::Char(' '));
            &&& flow == Flow::Continue
            &&& same_but_for_picks(s, n)
            &&& turns_here(s, n)
        }),
{
}

/// The hunk under the cursor goes to `to`, if that is a commit, and no other goes elsewhere;
/// where the commit is a new one, the hunk is picked too.
pub open spec fn sends_here(s: AppV, n: AppV, to: Option<Oid>, fresh: bool) -> bool {
    forall|x: int, y: int|
        0 <= x < s.files.len() && 0 <= y < s.files[x].selected.len() ==> {
            let sent = to is Some && (fresh || s.source != Source::Files) && is_here(s, x, y);
            &&& (#[trigger] n.files[x].targets[y]) == if sent {
                to
            } else {
                s.files[x].targets[y]
            }
            &&& n.files[x].selected[y] == (s.files[x].selected[y] || (sent && fresh))
        }
}

/// `t` sends the hunk under the cursor, and no other, to the commit under the cursor of the
/// commit list. On the row of the new commit it goes there, and is picked. In the file list
/// the whole file goes, and no hunk.
pub proof fn t_sends_the_hunk_under_the_cursor(s: AppV)
    requires
        listens(s),
    ensures
        ({
            let (n, flow) = keys::pressed(s, Key::Char('t'));
            let to = if on_new_row(s) {
                Some(Oid { w0: 0, w1: 0, w2: 0, w3: 0, w4: 0 })
            } else {
                commit_here(s)
            };
            let fresh = to == Some(Oid { w0: 0, w1: 0, w2: 0, w3: 0, w4: 0 });
            &&& flow == Flow::Continue
            &&& same_but_for_picks(AppV { move_target: n.move_target, ..s }, n)
            &&& n.move_target == if to is Some && !fresh && s.source == Source::Files {
                to
            } else {
                s.move_target
            }
            &&& sends_here(s, n, to, fresh)
        }),
{
}

/// Every picked hunk goes to `to`, if that is a commit and hunks are shown; what is picked
/// stays picked.
pub open spec fn sends_picked(s: AppV, n: AppV, to: Option<Oid>) -> bool {
    forall|x: int, y: int|
        0 <= x < s.files.len() && 0 <= y < s.files[x].selected.len() ==> {
            &&& (#[trigger] n.files[x].targets[y]) == if to is Some && s.source != Source::Files
                && s.files[x].selected[y] {
                to
            } else {
                s.files[x].targets[y]
            }
            &&& n.files[x].selected == s.files[x].selected
        }
}

/// `f` sends every picked hunk to the commit under the cursor, or to the new one, and leaves
/// the others where they go. Nothing is picked or unpicked.
pub proof fn f_sends_every_picked_hunk(s: AppV)
    requires
        listens(s),
    ensures
        ({
            let (n, flow) = keys::pressed(s, Key::Char('f'));
            let to = if on_new_row(s) {
                Some(Oid { w0: 0, w1: 0, w2: 0, w3: 0, w4: 0 })
            } else {
                commit_here(s)
            };
            &&& flow == Flow::Continue
            &&& same_but_for_picks(s, n)
            &&& sends_picked(s, n, to)
        }),
{
    let (n, _) = keys::pressed(s, Key::Char('f'));
    assert forall|x: int| 0 <= x < s.files.len() implies same_file(
        s.files[x],
        #[trigger] n.files[x],
    ) by {
        assert(s.files[x].wf());
    }
}

/// Every hunk goes where inference says, if there is an inference; what is picked stays
/// picked.
pub open spec fn sends_inferred(s: AppV, n: AppV) -> bool {
    forall|x: int|
        0 <= x < s.files.len() ==> {
            &&& (#[trigger] n.files[x]).selected == s.files[x].selected
            &&& n.files[x].targets == if s.source == Source::Staged || s.source
                == Source::Unstaged {
                s.files[x].inferred
            } else {
                s.files[x].targets
            }
        }
}

/// `a` sends every hunk where inference says, where there is an inference: not for the hunks
/// of a commit, nor in the file list. Nothing is picked or unpicked.
pub proof fn a_sends_every_hunk_where_inference_says(s: AppV)
    requires
        listens(s),
    ensures
        ({
            let (n, flow) = keys::pressed(s, Key::Char('a'));
            &&& flow == Flow::Continue
            &&& same_but_for_picks(s, n)
            &&& sends_inferred(s, n)
        }),
{
    let (n, _) = keys::pressed(s, Key::Char('a'));
    assert forall|x: int| 0 <= x < s.files.len() implies same_file(
        s.files[x],
        #[trigger] n.files[x],
    ) by {
        assert(s.files[x].wf());
    }
}

// ── shape ───────────────────────────────────────────────────────────────────

/// The shape keys act: the commit list has the focus, and its cursor is on a commit.
pub open spec fn shapes(s: AppV) -> bool {
    s.focus == Pane::Commits && !on_new_row(s)
}

/// The commits at `at` and at `to` change places, the cursor goes along, and nothing else
/// changes but the shape.
pub open spec fn trades_places(s: AppV, n: AppV, at: int, to: int) -> bool {
    &&& n.commit_cursor == to
    &&& n.commits.len() == s.commits.len()
    &&& n.commits[to] == s.commits[at]
    &&& n.commits[at] == s.commits[to]
    &&& forall|x: int|
        0 <= x < s.commits.len() && x != at && x != to ==> (#[trigger] n.commits[x])
            == s.commits[x]
    &&& same_but_for_words(
        AppV {
            commits: n.commits,
            commit_cursor: n.commit_cursor,
            diff_scroll: n.diff_scroll,
            shape: n.shape,
            ..s
        },
        n,
    )
}

/// A reorder is going on, and the order from before its first move is known.
pub open spec fn keeps_the_order(s: AppV, n: AppV) -> bool {
    &&& n.shape is Reorder
    &&& s.shape is Reorder ==> n.shape == s.shape
    &&& !(s.shape is Reorder) ==> {
        let was = n.shape->Reorder_0;
        &&& was.len() == s.commits.len()
        &&& forall|x: int| 0 <= x < was.len() ==> #[trigger] was[x] == s.commits[x].oid
    }
}

/// `[` moves the commit under the cursor one row up and `]` one row down, towards the tip
/// and away from it: the two neighbours change places, the cursor goes along, and nothing
/// else moves. At the end of the list nothing happens. The order from before the first move
/// is kept.
pub proof fn brackets_move_the_commit_by_one(s: AppV, down: bool)
    requires
        listens(s),
        s.commits.len() <= usize::MAX,
    ensures
        ({
            let (n, flow) = keys::pressed(
                s,
                Key::Char(
                    if down {
                        ']'
                    } else {
                        '['
                    },
                ),
            );
            let at = s.commit_cursor as int;
            let to = if down {
                at + 1
            } else {
                at - 1
            };
            let moves = shapes(s) && 0 <= to < s.commits.len();
            &&& flow == Flow::Continue
            &&& !moves ==> same_but_for_words(s, n)
            &&& moves ==> trades_places(s, n, at, to) && keeps_the_order(s, n)
        }),
{
    let key = Key::Char(
        if down {
            ']'
        } else {
            '['
        },
    );
    let by: int = if down {
        1
    } else {
        -1
    };
    let calm = AppV { pending_apply: false, pending_quit: false, ..s };
    assert(keys::pressed(s, key) == (calm.moved_commit(by), Flow::Continue));
    lemma_moved_by_one(calm, by);
}

proof fn lemma_moved_by_one(s: AppV, by: int)
    requires
        s.wf(),
        s.commits.len() <= usize::MAX,
        by == 1 || by == -1,
    ensures
        ({
            let n = s.moved_commit(by);
            let at = s.commit_cursor as int;
            let moves = shapes(s) && 0 <= at + by < s.commits.len();
            &&& !moves ==> same_but_for_words(s, n)
            &&& moves ==> trades_places(s, n, at, at + by) && keeps_the_order(s, n)
        }),
{
    let at = s.commit_cursor as int;
    let n = s.moved_commit(by);
    if shapes(s) && 0 <= at + by < s.commits.len() {
        assert(n.commits == keys::exchanged(s.commits, at, at + by));
        assert(trades_places(s, n, at, at + by));
        assert(keeps_the_order(s, n));
    }
}

/// `d` marks the commit under the cursor to be dropped, and `s` to be squashed into its
/// parent; a reorder that was going on is taken back. Nothing else changes.
pub proof fn d_and_s_mark_the_commit_under_the_cursor(s: AppV, drop: bool)
    requires
        listens(s),
    ensures
        ({
            let (n, flow) = keys::pressed(
                s,
                Key::Char(
                    if drop {
                        'd'
                    } else {
                        's'
                    },
                ),
            );
            &&& flow == Flow::Continue
            &&& match commit_here(s) {
                Some(c) if s.focus == Pane::Commits => {
                    &&& n.shape == if drop {
                        ShapeV::Drop(c)
                    } else {
                        ShapeV::Squash(c)
                    }
                    &&& n.files == s.files && n.source == s.source && n.opts == s.opts
                    &&& !(s.shape is Reorder) ==> n.commits == s.commits
                },
                _ => same_but_for_words(s, n),
            }
        }),
{
}

/// `r` opens the prompt on the commit under the cursor, with its summary in it, and changes
/// nothing else.
pub proof fn r_asks_for_a_message(s: AppV)
    requires
        listens(s),
    ensures
        ({
            let (n, flow) = keys::pressed(s, Key::Char('r'));
            &&& flow == Flow::Continue
            &&& same_but_for_words(AppV { input: n.input, ..s }, n)
            &&& match commit_here(s) {
                Some(c) if s.focus == Pane::Commits => n.input matches Some(p) && p.what
                    == Ask::Reword(c) && p.text == s.commits[s.commit_cursor as int].summary,
                _ => n.input is None,
            }
        }),
{
}

// ── looking around ──────────────────────────────────────────────────────────

/// The place of the cursor in the commit list, with the row of the new commit on top where
/// there is one.
pub open spec fn place_in_list(s: AppV) -> int {
    if s.source == Source::Files {
        s.commit_cursor as int
    } else if s.phantom_cursor {
        0
    } else {
        s.commit_cursor + 1
    }
}

/// Up and Down move the cursor of the list with the focus by one row, and stop at its ends.
/// The row of the new commit is the topmost of the commit list.
pub proof fn arrows_move_the_cursor_by_one(s: AppV, down: bool)
    requires
        listens(s),
        s.flat.len() <= usize::MAX,
        s.visible_files().len() <= usize::MAX,
        s.commits.len() <= usize::MAX,
    ensures
        ({
            let (n, flow) = keys::pressed(
                s,
                if down {
                    Key::Down
                } else {
                    Key::Up
                },
            );
            let by: int = if down {
                1
            } else {
                -1
            };
            let rows = s.commits.len() + if s.source == Source::Files {
                0int
            } else {
                1int
            };
            &&& flow == Flow::Continue
            &&& n.files == s.files && n.commits == s.commits && n.shape == s.shape && n.source
                == s.source && n.focus == s.focus
            &&& s.focus == Pane::Commits ==> {
                &&& 0 <= place_in_list(s) + by < rows ==> place_in_list(n) == place_in_list(s) + by
                &&& !(0 <= place_in_list(s) + by < rows) && s.commits.len() > 0 ==> place_in_list(n)
                    == place_in_list(s)
                &&& n.hunk_cursor == s.hunk_cursor && n.move_cursor == s.move_cursor
            }
            &&& s.focus == Pane::Right ==> {
                let (was, now, len) = if s.source == Source::Files {
                    (s.move_cursor, n.move_cursor, s.visible_files().len())
                } else {
                    (s.hunk_cursor, n.hunk_cursor, s.flat.len())
                };
                &&& 0 <= was + by < len ==> now == was + by
                &&& was < len && !(0 <= was + by < len) ==> now == was
                &&& n.commit_cursor == s.commit_cursor && n.phantom_cursor == s.phantom_cursor
                &&& s.source == Source::Files ==> n.hunk_cursor == s.hunk_cursor
                &&& s.source != Source::Files ==> n.move_cursor == s.move_cursor
            }
        }),
{
}

/// Home goes to the top of the list with the focus, and End to its last entry. The top of
/// the commit list is the row of the new commit, where there is one.
pub proof fn home_and_end_go_to_the_ends(s: AppV)
    requires
        listens(s),
        s.flat.len() <= usize::MAX,
        s.visible_files().len() <= usize::MAX,
        s.commits.len() <= usize::MAX,
    ensures
        ({
            let (h, _) = keys::pressed(s, Key::Home);
            let (e, _) = keys::pressed(s, Key::End);
            &&& s.focus == Pane::Commits ==> {
                &&& place_in_list(h) == 0
                &&& s.commits.len() > 0 ==> e.commit_cursor == s.commits.len() - 1 && !on_new_row(e)
            }
            &&& s.focus == Pane::Right && s.source == Source::Files ==> {
                &&& h.move_cursor == 0
                &&& s.visible_files().len() > 0 ==> e.move_cursor == s.visible_files().len() - 1
            }
            &&& s.focus == Pane::Right && s.source != Source::Files ==> {
                &&& h.hunk_cursor == 0
                &&& s.flat.len() > 0 ==> e.hunk_cursor == s.flat.len() - 1
            }
        }),
{
}

/// Tab and the arrows to the side give the focus to the other pane.
pub proof fn tab_changes_the_pane(s: AppV, key: Key)
    requires
        listens(s),
        key == Key::Tab || key == Key::BackTab || key == Key::Left || key == Key::Right,
    ensures
        ({
            let (n, flow) = keys::pressed(s, key);
            &&& flow == Flow::Continue
            &&& n.focus != s.focus
            &&& same_but_for_words(AppV { focus: n.focus, ..s }, n)
        }),
{
}

/// The pages scroll the diff, ten lines at a time, but not above its top.
pub proof fn pages_scroll_the_diff(s: AppV)
    requires
        listens(s),
    ensures
        ({
            let (d, _) = keys::pressed(s, Key::PageDown);
            let (u, _) = keys::pressed(s, Key::PageUp);
            &&& same_but_for_words(AppV { diff_scroll: d.diff_scroll, ..s }, d)
            &&& same_but_for_words(AppV { diff_scroll: u.diff_scroll, ..s }, u)
            &&& s.diff_scroll + 10 <= u16::MAX ==> d.diff_scroll == s.diff_scroll + 10
            &&& s.diff_scroll >= 10 ==> u.diff_scroll == s.diff_scroll - 10
            &&& s.diff_scroll < 10 ==> u.diff_scroll == 0
        }),
{
}

// ── the rest ────────────────────────────────────────────────────────────────

/// What a key asks of the driver. No other key asks for anything, but `m`, Esc and `q`,
/// which leave the file list, go back to the staged change, and quit.
pub proof fn what_a_key_asks_of_the_driver(s: AppV, key: Key)
    requires
        listens(s),
    ensures
        ({
            let flow = keys::pressed(s, key).1;
            &&& flow == Flow::Apply <==> key == Key::Enter
            &&& flow == Flow::OpenCommit <==> key == Key::Char('e')
            &&& flow == Flow::OpenUnstaged <==> key == Key::Char('w')
            &&& flow == Flow::Undo <==> key == Key::Char('u')
            &&& flow == Flow::Preview <==> key == Key::Char('p') || key == Key::Char('c') || key
                == Key::Char('i')
            &&& flow == Flow::Quit ==> key == Key::Char('q')
            &&& flow != Flow::Submit
            &&& flow == Flow::ResetSource <==> {
                ||| key == Key::Char('m') && s.source == Source::Files
                ||| key == Key::Esc && !s.pending_apply && s.shape == ShapeV::Unchanged && s.focus
                    == Pane::Commits && s.source != Source::Staged
            }
        }),
{
}

/// `m` opens the file list, at its top and with the focus; nothing that is picked changes.
pub proof fn m_opens_the_file_list(s: AppV)
    requires
        listens(s),
        s.source != Source::Files,
    ensures
        ({
            let (n, flow) = keys::pressed(s, Key::Char('m'));
            &&& flow == Flow::Continue
            &&& n.source == Source::Files && n.focus == Pane::Right && n.move_cursor == 0
            &&& same_but_for_words(
                AppV { source: n.source, focus: n.focus, move_cursor: n.move_cursor, ..s },
                n,
            )
        }),
{
}

/// Esc takes one thing back, the innermost: an armed apply, a pending shape edit, the focus
/// of the right pane. Only then does it leave the source.
pub proof fn esc_takes_one_thing_back(s: AppV)
    requires
        listens(s),
    ensures
        ({
            let (n, flow) = keys::pressed(s, Key::Esc);
            &&& !n.pending_apply
            &&& n.files == s.files && n.source == s.source && n.opts == s.opts && n.move_target
                == s.move_target
            &&& s.pending_apply ==> flow == Flow::Continue && n.shape == s.shape && n.focus
                == s.focus && n.commits == s.commits
            &&& !s.pending_apply && s.shape != ShapeV::Unchanged ==> flow == Flow::Continue
                && n.shape == ShapeV::Unchanged && n.focus == s.focus
            &&& !s.pending_apply && s.shape == ShapeV::Unchanged && s.focus == Pane::Right ==> flow
                == Flow::Continue && n.focus == Pane::Commits && n.commits == s.commits
        }),
{
}

/// `c` changes the conflict rule and `i` whether white space counts, and neither anything
/// else of the options or the plan.
pub proof fn c_and_i_change_one_option_each(s: AppV)
    requires
        listens(s),
    ensures
        ({
            let (c, _) = keys::pressed(s, Key::Char('c'));
            let (i, _) = keys::pressed(s, Key::Char('i'));
            &&& same_but_for_words(AppV { opts: Opts { favor: c.opts.favor, ..s.opts }, ..s }, c)
            &&& same_but_for_words(
                AppV { opts: Opts { ignore_ws: !s.opts.ignore_ws, ..s.opts }, ..s },
                i,
            )
            &&& c.opts.favor == match s.opts.favor {
                None => Some(FileFavor::Ours),
                Some(FileFavor::Ours) => Some(FileFavor::Theirs),
                Some(FileFavor::Theirs) => Some(FileFavor::Union),
                Some(FileFavor::Union) => None,
            }
        }),
{
}

/// While a prompt is open, a character is added to its end and Backspace takes the last one
/// off; Enter submits it as it is, and Esc closes it. Nothing else happens but in a filter,
/// which narrows the list at once and shows all of it again when it is closed.
pub proof fn a_prompt_takes_what_is_typed(s: AppV, p: PromptV, c: char)
    requires
        s.input == Some(p),
    ensures
        ({
            let (typed, f) = keys::pressed(s, Key::Char(c));
            let (cut, g) = keys::pressed(s, Key::Backspace);
            let (shut, h) = keys::pressed(s, Key::Esc);
            let (sent, i) = keys::pressed(s, Key::Enter);
            &&& f == Flow::Continue && g == Flow::Continue && h == Flow::Continue
            &&& i == Flow::Submit && sent == s
            &&& typed.input matches Some(q) && q.text == p.text.push(c) && q.what == p.what
                && q.label == p.label
            &&& cut.input matches Some(q) && q.what == p.what && q.label == p.label && q.text
                == if p.text.len() > 0 {
                p.text.drop_last()
            } else {
                p.text
            }
            &&& shut.input is None && shut.filter.len() == 0
            &&& p.what == Ask::Filter ==> typed.filter == p.text.push(c) && typed.move_cursor == 0
            &&& p.what != Ask::Filter ==> typed == (AppV { input: typed.input, ..s })
            &&& typed.files == s.files && typed.commits == s.commits && typed.shape == s.shape
            &&& shut.files == s.files && shut.commits == s.commits && shut.shape == s.shape
        }),
{
}

/// `/` opens the filter in the file list, with what it already holds, and only there.
pub proof fn a_slash_opens_the_filter(s: AppV)
    requires
        listens(s),
    ensures
        ({
            let (n, flow) = keys::pressed(s, Key::Char('/'));
            &&& flow == Flow::Continue
            &&& same_but_for_words(AppV { input: n.input, ..s }, n)
            &&& s.source == Source::Files ==> (n.input matches Some(p) && p.what == Ask::Filter
                && p.text == s.filter)
            &&& s.source != Source::Files ==> n.input is None
        }),
{
}

/// The file list shows the tracked files that hold the filter, in order.
pub proof fn the_filter_narrows_the_file_list(s: AppV)
    ensures
        s.visible_files() == s.move_files.filter(|p: Seq<char>| text::holds(p, s.filter)),
{
    lemma_narrowed(s.move_files, s.filter);
}

proof fn lemma_narrowed(paths: Seq<Seq<char>>, filter: Seq<char>)
    ensures
        tui::labels::narrowed(paths, filter) == paths.filter(
            |p: Seq<char>| text::holds(p, filter),
        ),
    decreases paths.len(),
{
    reveal(Seq::filter);
    if paths.len() > 0 {
        lemma_narrowed(paths.drop_last(), filter);
    }
}

} // verus!
