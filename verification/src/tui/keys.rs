//! Keys: what each one does to the screen, and what the driver is to do next. No
//! I/O — this is the whole interaction.
//!
//! Bindings are arrow-key based and without shift keys; actions use the mnemonic
//! letters of an interactive rebase where they exist (`e`dit, `s`quash, `d`rop,
//! `r`eword) plus `t`arget, `f`ix-all, `a`bsorb-inference, `m`ove-file, `p`review,
//! `u`ndo.

use crate::git::FileFavor;
use crate::oid::Oid;
use crate::ops::Opts;
use crate::text;
use crate::tui;
use crate::tui::{
    App, AppV, Ask, CommitRow, FileEntry, FileV, Flow, Key, Pane, Prompt, PromptV, RowV, Shape,
    ShapeV, Source,
};
use vstd::prelude::*;

verus! {

// ── what each verb does ─────────────────────────────────────────────────────

/// The rows of this commit, in order.
pub open spec fn rows_of(rows: Seq<RowV>, c: Oid) -> Seq<RowV>
    decreases rows.len(),
{
    if rows.len() == 0 {
        Seq::empty()
    } else if rows[0].oid == c {
        seq![rows[0]] + rows_of(rows.drop_first(), c)
    } else {
        rows_of(rows.drop_first(), c)
    }
}

/// The rows of every other commit, in order.
pub open spec fn rows_but(rows: Seq<RowV>, c: Oid) -> Seq<RowV>
    decreases rows.len(),
{
    if rows.len() == 0 {
        Seq::empty()
    } else if rows[0].oid == c {
        rows_but(rows.drop_first(), c)
    } else {
        seq![rows[0]] + rows_but(rows.drop_first(), c)
    }
}

/// The rows in the order of these commits, and the rows of no such commit.
pub open spec fn dealt(rows: Seq<RowV>, order: Seq<Oid>) -> (Seq<RowV>, Seq<RowV>)
    decreases order.len(),
{
    if order.len() == 0 {
        (Seq::empty(), rows)
    } else {
        let (out, rest) = dealt(rows, order.drop_last());
        (out + rows_of(rest, order.last()), rows_but(rest, order.last()))
    }
}

/// The rows sorted by the commits' places in `order`; rows of other commits come
/// last, as they stood.
pub open spec fn sorted(rows: Seq<RowV>, order: Seq<Oid>) -> Seq<RowV> {
    dealt(rows, order).0 + dealt(rows, order).1
}

/// The rows with two of them exchanged.
pub open spec fn exchanged(rows: Seq<RowV>, i: int, j: int) -> Seq<RowV> {
    rows.update(i, rows[j]).update(j, rows[i])
}

/// The commits of the rows.
pub open spec fn oids(rows: Seq<RowV>) -> Seq<Oid> {
    rows.map_values(|r: RowV| r.oid)
}

/// The next conflict rule: abort, ours, theirs, union, abort.
pub open spec fn next_favor(f: Option<FileFavor>) -> Option<FileFavor> {
    match f {
        None => Some(FileFavor::Ours),
        Some(FileFavor::Ours) => Some(FileFavor::Theirs),
        Some(FileFavor::Theirs) => Some(FileFavor::Union),
        Some(FileFavor::Union) => None,
    }
}

impl FileV {
    /// The hunk picked or unpicked.
    pub open spec fn picking(self, h: int, on: bool) -> FileV {
        FileV { selected: self.selected.update(h, on), ..self }
    }

    /// The hunk sent to a commit.
    pub open spec fn sending(self, h: int, to: Oid) -> FileV {
        FileV { targets: self.targets.update(h, Some(to)), ..self }
    }

    /// Every picked hunk sent to a commit.
    pub open spec fn sending_picked(self, to: Oid) -> FileV {
        FileV {
            targets: Seq::new(
                self.targets.len(),
                |i: int|
                    if i < self.selected.len() && self.selected[i] {
                        Some(to)
                    } else {
                        self.targets[i]
                    },
            ),
            ..self
        }
    }

    /// Every hunk sent where inference says.
    pub open spec fn as_inferred(self) -> FileV {
        FileV { targets: self.inferred, ..self }
    }
}

impl AppV {
    /// The same, saying this.
    pub open spec fn say(self, status: Seq<char>) -> AppV {
        AppV { status, ..self }
    }

    /// The conflict rule cycled.
    pub open spec fn cycled_favor(self) -> AppV {
        let favor = next_favor(self.opts.favor);
        AppV { opts: Opts { favor, ..self.opts }, ..self }.say(
            match favor {
                None => "conflict rule: abort (the default) — c cycles"@,
                Some(f) => "conflict rule: "@ + tui::favor_word(f) + " — c cycles"@,
            },
        )
    }

    /// Whitespace ignored in merges, or significant again.
    pub open spec fn toggled_ws(self) -> AppV {
        AppV { opts: Opts { ignore_ws: !self.opts.ignore_ws, ..self.opts }, ..self }.say(
            if self.opts.ignore_ws {
                "whitespace is significant again (the default) — i toggles"@
            } else {
                "ignoring whitespace in every merge — i toggles"@
            },
        )
    }

    /// The filter prompt opened.
    pub open spec fn filtering(self) -> AppV {
        if self.source != Source::Files {
            self.say("/ filters the file list — press m first"@)
        } else {
            AppV {
                input: Some(
                    PromptV { label: "filter"@, text: self.filter, what: Ask::Filter },
                ),
                ..self
            }
        }
    }

    /// The commit list as it was before a pending reorder, and no shape edit.
    pub open spec fn unshaped(self) -> AppV {
        AppV {
            commits: match self.shape {
                ShapeV::Reorder(orig) => sorted(self.commits, orig),
                _ => self.commits,
            },
            shape: ShapeV::Unchanged,
            ..self
        }
    }

    /// Shape keys act on a real commit in the commit list.
    pub open spec fn takes_shape_keys(self) -> bool {
        !self.on_phantom() && self.focus == Pane::Commits
    }

    /// What is said where they do not.
    pub open spec fn refused_shape(self) -> AppV {
        self.say(
            if self.on_phantom() {
                "the + row is a destination for hunks (t), not a commit"@
            } else {
                "shape keys ([ ] d s r) work on the commit list"@
            },
        )
    }

    /// The selected commit moved within the stack.
    pub open spec fn moved_commit(self, delta: int) -> AppV {
        let to = self.commit_cursor + delta;
        if !self.takes_shape_keys() {
            self.refused_shape()
        } else if to < 0 || to >= self.commits.len() {
            self
        } else {
            let begun = if self.shape is Reorder {
                self
            } else {
                AppV { shape: ShapeV::Reorder(oids(self.commits)), ..self }
            };
            AppV {
                commits: exchanged(self.commits, self.commit_cursor as int, to),
                commit_cursor: to as usize,
                diff_scroll: 0,
                ..begun
            }.say("reordered — p: preview · Enter: apply · Esc: cancel"@)
        }
    }

    /// The prompt opened on the commit under the cursor, prefilled with its summary.
    pub open spec fn rewording(self) -> AppV {
        if !self.takes_shape_keys() {
            self.refused_shape()
        } else if self.commit_cursor >= self.commits.len() {
            self
        } else {
            let row = self.commits[self.commit_cursor as int];
            AppV {
                input: Some(
                    PromptV {
                        label: "message"@,
                        text: row.summary,
                        what: Ask::Reword(row.oid),
                    },
                ),
                ..self
            }
        }
    }

    /// The commit under the cursor marked dropped, or squashed into its parent. The
    /// mark is on the commit that the cursor was on before a pending reorder is put
    /// back.
    pub open spec fn marked(self, drop: bool) -> AppV {
        if !self.takes_shape_keys() {
            self.refused_shape()
        } else {
            match self.cursor_commit() {
                None => self,
                Some(c) => AppV {
                    shape: if drop {
                        ShapeV::Drop(c)
                    } else {
                        ShapeV::Squash(c)
                    },
                    ..self.unshaped()
                }.say(
                    (if drop {
                        "drop"@
                    } else {
                        "squash into its parent"@
                    }) + " "@ + c.spec_short() + " — p: preview · Enter: apply · Esc: cancel"@,
                ),
            }
        }
    }

    /// One layer back: an armed apply, a shape edit, the right pane, the source.
    pub open spec fn backed(self, was_pending: bool) -> (AppV, Flow) {
        if was_pending {
            (self.say("apply cancelled"@), Flow::Continue)
        } else if self.shape != ShapeV::Unchanged {
            (self.unshaped().say("shape edit cancelled"@), Flow::Continue)
        } else if self.focus == Pane::Right {
            (
                AppV { focus: Pane::Commits, ..self }.say("back to the commit list"@),
                Flow::Continue,
            )
        } else if self.source != Source::Staged {
            (self, Flow::ResetSource)
        } else {
            (self.say("already at the top level — q to quit"@), Flow::Continue)
        }
    }

    /// The focused list at its first or last entry. The phantom sits above the newest
    /// commit.
    pub open spec fn jumped(self, to_end: bool) -> AppV {
        let len = if self.focus == Pane::Commits {
            self.commits.len()
        } else if self.source == Source::Files {
            self.visible_files().len()
        } else {
            self.flat.len()
        };
        let at = if to_end && len > 0 {
            (len - 1) as usize
        } else {
            0
        };
        if self.focus == Pane::Commits {
            AppV { commit_cursor: at, phantom_cursor: !to_end, diff_scroll: 0, ..self }
        } else if self.source == Source::Files {
            AppV { move_cursor: at, ..self }
        } else {
            AppV { hunk_cursor: at, ..self }
        }
    }

    /// The focused list's cursor moved. In the commit list the phantom, where there
    /// is one, is one extra stop above the newest commit.
    pub open spec fn moved_cursor(self, delta: int) -> AppV {
        if self.focus == Pane::Commits {
            if self.has_phantom() {
                let cur = if self.phantom_cursor {
                    0
                } else {
                    self.commit_cursor + 1
                };
                let next = tui::stepped(cur, (self.commits.len() + 1) as int, delta);
                AppV {
                    phantom_cursor: next == 0,
                    commit_cursor: if next == 0 {
                        0
                    } else {
                        (next - 1) as usize
                    },
                    diff_scroll: 0,
                    ..self
                }
            } else {
                AppV {
                    commit_cursor: tui::stepped(
                        self.commit_cursor as int,
                        self.commits.len() as int,
                        delta,
                    ) as usize,
                    diff_scroll: 0,
                    ..self
                }
            }
        } else if self.source == Source::Files {
            AppV {
                move_cursor: tui::stepped(
                    self.move_cursor as int,
                    self.visible_files().len() as int,
                    delta,
                ) as usize,
                ..self
            }
        } else {
            AppV {
                hunk_cursor: tui::stepped(self.hunk_cursor as int, self.flat.len() as int, delta)
                    as usize,
                ..self
            }
        }
    }

    /// The diff scrolled.
    pub open spec fn scrolled(self, by: int) -> AppV {
        let at = self.diff_scroll + by;
        AppV {
            diff_scroll: if at < 0 {
                0
            } else if at > u16::MAX {
                u16::MAX
            } else {
                at as u16
            },
            ..self
        }
    }

    /// The other pane focused.
    pub open spec fn refocused(self) -> AppV {
        AppV {
            focus: if self.focus == Pane::Commits {
                Pane::Right
            } else {
                Pane::Commits
            },
            ..self
        }
    }

    /// The right pane swapped to the file list, or out of it.
    pub open spec fn toggled_files(self) -> (AppV, Flow) {
        if self.source == Source::Files {
            (self, Flow::ResetSource)
        } else {
            (
                AppV { source: Source::Files, focus: Pane::Right, move_cursor: 0, ..self }.say(
                    "move a whole file: pick it, Tab to a commit, t, then Enter"@,
                ),
                Flow::Continue,
            )
        }
    }

    /// The hunk under the cursor picked or unpicked.
    pub open spec fn toggled(self) -> AppV {
        if self.focus != Pane::Right {
            self.say("Space picks hunks — Tab to the hunk pane first"@)
        } else if self.source == Source::Files {
            self
        } else {
            match self.cursor_hunk() {
                Some((f, h)) => {
                    let file = self.files[f as int];
                    AppV {
                        files: self.files.update(
                            f as int,
                            file.picking(h as int, !file.selected[h as int]),
                        ),
                        ..self
                    }
                },
                None => self,
            }
        }
    }

    /// Which way a hunk of a commit goes: backward is absorbed idempotently, forward
    /// also reverts at the source and can conflict.
    pub open spec fn direction_note(self, to: Oid) -> Seq<char> {
        match self.source {
            Source::Commit(src) => if self.is_newer(to, src) {
                " (forward — may conflict)"@
            } else {
                " (backward — clean)"@
            },
            _ => Seq::empty(),
        }
    }

    /// The current hunk, or the file move, sent to the commit under the cursor.
    pub open spec fn targeted(self) -> AppV {
        match self.route_target() {
            None => self,
            Some(to) => if to == tui::phantom() {
                match self.cursor_hunk() {
                    Some((f, h)) => AppV {
                        files: self.files.update(
                            f as int,
                            self.files[f as int].picking(h as int, true).sending(h as int, to),
                        ),
                        ..self
                    }.say(
                        if self.phantom_is_tip() {
                            "hunk → a NEW commit at the tip — ⏎ names it and commits"@
                        } else {
                            "hunk → a NEW commit before the source (split) — ⏎ names it"@
                        },
                    ),
                    None => self,
                }
            } else if self.source == Source::Files {
                AppV { move_target: Some(to), ..self }.say(
                    "move destination → "@ + to.spec_short(),
                )
            } else {
                match self.cursor_hunk() {
                    Some((f, h)) => AppV {
                        files: self.files.update(
                            f as int,
                            self.files[f as int].sending(h as int, to),
                        ),
                        ..self
                    }.say("hunk → "@ + to.spec_short() + self.direction_note(to)),
                    None => self,
                }
            },
        }
    }

    /// EVERY selected hunk sent to the commit under the cursor.
    pub open spec fn routed_all(self) -> AppV {
        match self.route_target() {
            None => self,
            Some(to) => if self.source == Source::Files {
                self
            } else {
                let n = tui::picked_of(self.files);
                AppV {
                    files: self.files.map_values(|f: FileV| f.sending_picked(to)),
                    ..self
                }.say(
                    if n == 0 {
                        "nothing selected — pick hunks with Space first"@
                    } else if to != tui::phantom() {
                        text::decimal_of(n) + " selected hunk(s) → "@ + to.spec_short()
                            + " (fix)"@
                    } else if self.phantom_is_tip() {
                        text::decimal_of(n) + " selected hunk(s) → a NEW commit at the tip"@
                    } else {
                        text::decimal_of(n)
                            + " selected hunk(s) → a NEW commit before the source (split)"@
                    },
                )
            },
        }
    }

    /// Every hunk's target reset to inference's suggestion.
    pub open spec fn accepted(self) -> AppV {
        match self.source {
            Source::Commit(_) => self.say(
                "no inference for a commit's hunks — pick destinations with t"@,
            ),
            Source::Files => self.say(
                "the file list has no hunks to re-infer — Esc back to staged"@,
            ),
            _ => AppV { files: self.files.map_values(|f: FileV| f.as_inferred()), ..self }.say(
                "targets reset to inference (absorb)"@,
            ),
        }
    }

    /// A key typed into the open prompt. A filter applies as it is typed, and a
    /// cancelled one does not stay applied.
    pub open spec fn typed(self, p: PromptV, key: Key) -> (AppV, Flow) {
        let next = match key {
            Key::Char(c) => Some(PromptV { text: p.text.push(c), ..p }),
            Key::Backspace => Some(
                PromptV {
                    text: if p.text.len() > 0 {
                        p.text.drop_last()
                    } else {
                        p.text
                    },
                    ..p
                },
            ),
            Key::Esc => None,
            _ => Some(p),
        };
        if key == Key::Enter {
            (self, Flow::Submit)
        } else {
            let s = if next is None {
                AppV { input: None, filter: Seq::empty(), ..self }.say("cancelled"@)
            } else {
                AppV { input: next, ..self }
            };
            if p.what != Ask::Filter {
                (s, Flow::Continue)
            } else {
                (
                    AppV {
                        filter: match next {
                            Some(n) => n.text,
                            None => Seq::empty(),
                        },
                        move_cursor: 0,
                        ..s
                    },
                    Flow::Continue,
                )
            }
        }
    }

    /// Quit, or a warning that names what would be lost.
    pub open spec fn quitting(self, was_quitting: bool) -> (AppV, Flow) {
        match self.unapplied() {
            Some(what) => if was_quitting {
                (self, Flow::Quit)
            } else {
                (
                    AppV { pending_quit: true, ..self }.say(
                        "q again to quit and lose "@ + what + " — ⏎ applies, p previews"@,
                    ),
                    Flow::Continue,
                )
            },
            None => (self, Flow::Quit),
        }
    }
}

/// Keys that only look: they move a cursor, a scroll offset or the focus.
pub open spec fn looks(key: Key) -> bool {
    match key {
        Key::Up => true,
        Key::Down => true,
        Key::Home => true,
        Key::End => true,
        Key::PageUp => true,
        Key::PageDown => true,
        Key::Tab => true,
        Key::BackTab => true,
        Key::Left => true,
        Key::Right => true,
        _ => false,
    }
}

/// What a letter or sign does once neither the prompt nor the help has taken it.
pub open spec fn lettered(s: AppV, c: char, was_quitting: bool) -> (AppV, Flow) {
    match c {
        'q' => s.quitting(was_quitting),
        '?' => (AppV { help: true, ..s }, Flow::Continue),
        ' ' => (s.toggled(), Flow::Continue),
        't' => (s.targeted(), Flow::Continue),
        'f' => (s.routed_all(), Flow::Continue),
        'a' => (s.accepted(), Flow::Continue),
        'm' => s.toggled_files(),
        'e' => (s, Flow::OpenCommit),
        'w' => (s, Flow::OpenUnstaged),
        '/' => (s.filtering(), Flow::Continue),
        '[' => (s.moved_commit(-1), Flow::Continue),
        ']' => (s.moved_commit(1), Flow::Continue),
        'd' => (s.marked(true), Flow::Continue),
        's' => (s.marked(false), Flow::Continue),
        'r' => (s.rewording(), Flow::Continue),
        'p' => (s, Flow::Preview),
        'u' => (s, Flow::Undo),
        'c' => (s.cycled_favor(), Flow::Preview),
        'i' => (s.toggled_ws(), Flow::Preview),
        _ => (s, Flow::Continue),
    }
}

/// What a key does once neither the prompt nor the help has taken it.
pub open spec fn acted(s: AppV, key: Key, was_pending: bool, was_quitting: bool) -> (AppV, Flow) {
    match key {
        Key::Char(c) => lettered(s, c, was_quitting),
        Key::Esc => s.backed(was_pending),
        Key::Down => (s.moved_cursor(1), Flow::Continue),
        Key::Up => (s.moved_cursor(-1), Flow::Continue),
        Key::Home => (s.jumped(false), Flow::Continue),
        Key::End => (s.jumped(true), Flow::Continue),
        Key::PageDown => (s.scrolled(10), Flow::Continue),
        Key::PageUp => (s.scrolled(-10), Flow::Continue),
        Key::Tab => (s.refocused(), Flow::Continue),
        Key::BackTab => (s.refocused(), Flow::Continue),
        Key::Right => (s.refocused(), Flow::Continue),
        Key::Left => (s.refocused(), Flow::Continue),
        Key::Enter => (s, Flow::Apply),
        Key::Backspace => (s, Flow::Continue),
        Key::Other => (s, Flow::Continue),
    }
}

/// What a key does to the screen, and what the driver is to do next.
///
/// - While the prompt is open it swallows EVERY key.
/// - The help overlay swallows the key that closes it.
/// - An armed apply is cancelled by any key but Enter and those that only look.
/// - A warned quit is taken back by any key but `q`.
pub open spec fn pressed(s: AppV, key: Key) -> (AppV, Flow) {
    match s.input {
        Some(p) => s.typed(p, key),
        None => if s.help {
            (AppV { help: false, ..s }, Flow::Continue)
        } else {
            acted(
                AppV {
                    pending_apply: s.pending_apply && (key == Key::Enter || looks(key)),
                    pending_quit: s.pending_quit && key == Key::Char('q'),
                    ..s
                },
                key,
                s.pending_apply,
                s.pending_quit,
            )
        },
    }
}

// ── the verbs ───────────────────────────────────────────────────────────────

proof fn lemma_first_row(rows: Seq<RowV>, c: Oid, i: int)
    requires
        0 <= i < rows.len(),
    ensures
        tui::row_of(rows, c, i + 1) == match tui::row_of(rows.drop_first(), c, i) {
            Some(j) => Some(j + 1),
            None => None,
        },
    decreases rows.len() - i,
{
    if i + 1 < rows.len() {
        assert(rows.drop_first()[i] == rows[i + 1]);
        lemma_first_row(rows, c, i + 1);
    }
}

/// Taking the first row of a commit away.
proof fn lemma_take(rows: Seq<RowV>, c: Oid)
    ensures
        match tui::row_of(rows, c, 0) {
            Some(i) => 0 <= i < rows.len() && rows_of(rows, c) == seq![rows[i]] + rows_of(
                rows.remove(i),
                c,
            ) && rows_but(rows, c) == rows_but(rows.remove(i), c),
            None => rows_of(rows, c) == Seq::<RowV>::empty() && rows_but(rows, c) == rows,
        },
    decreases rows.len(),
{
    if rows.len() > 0 {
        let rest = rows.drop_first();
        if rows[0].oid == c {
            assert(rows.remove(0) =~= rest);
        } else {
            lemma_take(rest, c);
            lemma_first_row(rows, c, 0);
            match tui::row_of(rest, c, 0) {
                Some(i) => {
                    let less = rows.remove(i + 1);
                    assert(less.drop_first() =~= rest.remove(i));
                    assert(less[0] == rows[0]);
                    assert(rest[i] == rows[i + 1]);
                },
                None => {
                    assert(seq![rows[0]] + rest =~= rows);
                },
            }
        }
    }
}

/// Move the rows of this commit from one list to the end of another.
fn deal(from: &mut Vec<CommitRow>, to: &mut Vec<CommitRow>, c: Oid)
    ensures
        tui::rows_view(final(to)@) == tui::rows_view(old(to)@) + rows_of(
            tui::rows_view(old(from)@),
            c,
        ),
        tui::rows_view(final(from)@) == rows_but(tui::rows_view(old(from)@), c),
{
    let ghost all = tui::rows_view(from@);
    let ghost start = tui::rows_view(to@);
    let mut at = tui::row(from, c);
    while at.is_some()
        invariant
            match at {
                Some(i) => tui::row_of(tui::rows_view(from@), c, 0) == Some(i as int) && i
                    < from@.len(),
                None => tui::row_of(tui::rows_view(from@), c, 0) is None,
            },
            tui::rows_view(to@) + rows_of(tui::rows_view(from@), c) == start + rows_of(all, c),
            rows_but(tui::rows_view(from@), c) == rows_but(all, c),
        decreases from@.len(),
    {
        if let Some(i) = at {
            let ghost was = tui::rows_view(from@);
            let ghost had = tui::rows_view(to@);
            let row = from.remove(i);
            let ghost now = tui::rows_view(from@);
            to.push(row);
            proof {
                lemma_take(was, c);
                assert(now =~= was.remove(i as int));
                assert(tui::rows_view(to@) =~= had.push(was[i as int]));
                assert(had.push(was[i as int]) + rows_of(now, c) =~= had + (seq![was[i as int]]
                    + rows_of(now, c)));
            }
            at = tui::row(from, c);
        }
    }
    proof {
        lemma_take(tui::rows_view(from@), c);
        assert(tui::rows_view(to@) + Seq::<RowV>::empty() =~= tui::rows_view(to@));
    }
}

/// Sort the rows by the commits' places in `order`.
fn sort_rows(rows: &mut Vec<CommitRow>, order: &Vec<Oid>)
    ensures
        tui::rows_view(final(rows)@) == sorted(tui::rows_view(old(rows)@), order@),
{
    let ghost all = tui::rows_view(rows@);
    let mut out: Vec<CommitRow> = Vec::new();
    let mut k: usize = 0;
    assert(order@.take(0) =~= Seq::empty());
    assert(tui::rows_view(out@) =~= Seq::empty());
    while k < order.len()
        invariant
            0 <= k <= order@.len(),
            (tui::rows_view(out@), tui::rows_view(rows@)) == dealt(all, order@.take(k as int)),
        decreases order@.len() - k,
    {
        assert(order@.take(k + 1).drop_last() =~= order@.take(k as int));
        deal(rows, &mut out, order[k]);
        k += 1;
    }
    assert(order@.take(k as int) =~= order@);
    let ghost a = tui::rows_view(out@);
    let ghost b = tui::rows_view(rows@);
    out.append(rows);
    assert(tui::rows_view(out@) =~= a + b);
    std::mem::swap(rows, &mut out);
}

/// Exchange two rows.
fn exchange(rows: &mut Vec<CommitRow>, i: usize, j: usize)
    requires
        i < old(rows)@.len(),
        j < old(rows)@.len(),
    ensures
        tui::rows_view(final(rows)@) == exchanged(tui::rows_view(old(rows)@), i as int, j as int),
{
    let ghost all = tui::rows_view(rows@);
    if i == j {
        assert(exchanged(all, i as int, j as int) =~= all);
        return;
    }
    let lo: usize = if i < j {
        i
    } else {
        j
    };
    let hi: usize = if i < j {
        j
    } else {
        i
    };
    let b = rows.remove(hi);
    let a = rows.remove(lo);
    rows.insert(lo, b);
    rows.insert(hi, a);
    assert(tui::rows_view(rows@) =~= exchanged(all, i as int, j as int));
}

/// Where a step leads, unless it leaves the numbers.
fn offset(cur: usize, delta: isize) -> (r: Option<usize>)
    ensures
        match r {
            Some(n) => n == cur + delta,
            None => cur + delta < 0 || cur + delta > usize::MAX,
        },
{
    if delta < 0 {
        let d: usize = (-(delta + 1)) as usize;
        if cur <= d {
            None
        } else {
            Some(cur - d - 1)
        }
    } else {
        let d: usize = delta as usize;
        if cur > usize::MAX - d {
            None
        } else {
            Some(cur + d)
        }
    }
}

impl FileEntry {
    /// Pick or unpick a hunk.
    fn pick(&mut self, h: usize, on: bool)
        requires
            h < old(self).selected@.len(),
        ensures
            final(self)@ == old(self)@.picking(h as int, on),
    {
        self.selected[h] = on;
        assert(self@ =~= old(self)@.picking(h as int, on));
    }

    /// Send a hunk to a commit.
    fn send(&mut self, h: usize, to: Oid)
        requires
            h < old(self).targets@.len(),
        ensures
            final(self)@ == old(self)@.sending(h as int, to),
    {
        self.targets[h] = Some(to);
        assert(self@ =~= old(self)@.sending(h as int, to));
    }

    /// Send every picked hunk to a commit.
    fn send_picked(&mut self, to: Oid)
        requires
            old(self)@.wf(),
        ensures
            final(self)@ == old(self)@.sending_picked(to),
    {
        let ghost was = self@;
        let mut h: usize = 0;
        while h < self.selected.len()
            invariant
                0 <= h <= self.selected@.len(),
                was.wf(),
                self@ == (FileV { targets: self.targets@, ..was }),
                self.targets@.len() == was.targets.len(),
                forall|i: int|
                    0 <= i < was.targets.len() ==> (#[trigger] self.targets@[i]) == if i < h
                        && was.selected[i] {
                        Some(to)
                    } else {
                        was.targets[i]
                    },
            decreases self.selected@.len() - h,
        {
            if self.selected[h] {
                self.targets[h] = Some(to);
            }
            assert(self@ =~= (FileV { targets: self.targets@, ..was }));
            h += 1;
        }
        assert(self@ =~= was.sending_picked(to));
    }

    /// Send every hunk where inference says.
    fn infer(&mut self)
        ensures
            final(self)@ == old(self)@.as_inferred(),
    {
        let mut v: Vec<Option<Oid>> = Vec::new();
        let mut h: usize = 0;
        while h < self.inferred.len()
            invariant
                0 <= h <= self.inferred@.len(),
                v@ == self.inferred@.take(h as int),
            decreases self.inferred@.len() - h,
        {
            v.push(self.inferred[h]);
            h += 1;
            assert(self.inferred@.take(h as int) =~= self.inferred@.take(h - 1).push(
                self.inferred@[h - 1],
            ));
        }
        assert(self.inferred@.take(h as int) =~= self.inferred@);
        self.targets = v;
        assert(self@ =~= old(self)@.as_inferred());
    }
}

/// The files differ only in what is picked and where it goes.
pub open spec fn alike(a: Seq<FileV>, b: Seq<FileV>) -> bool {
    a.len() == b.len() && forall|i: int|
        0 <= i < a.len() ==> (#[trigger] b[i]).wf() && b[i].selected.len() == a[i].selected.len()
}

proof fn lemma_alike(a: Seq<FileV>, b: Seq<FileV>)
    requires
        alike(a, b),
    ensures
        tui::selectable(a) == tui::selectable(b),
    decreases a.len(),
{
    if a.len() > 0 {
        assert(b.last() == b[b.len() - 1]);
        lemma_alike(a.drop_last(), b.drop_last());
    }
}

/// Picking and sending hunks keeps the state sound.
proof fn lemma_files(s: AppV, files: Seq<FileV>)
    requires
        s.wf(),
        alike(s.files, files),
    ensures
        (AppV { files, ..s }).wf(),
{
    lemma_alike(s.files, files);
    assert forall|i: int| 0 <= i < s.flat.len() implies ({
        let (f, h) = #[trigger] s.flat[i];
        f < files.len() && h < files[f as int].selected.len()
    }) by {
        let (f, h) = s.flat[i];
        assert(files[f as int].selected.len() == s.files[f as int].selected.len());
    }
}

proof fn lemma_sorted_len(rows: Seq<RowV>, order: Seq<Oid>)
    ensures
        sorted(rows, order).len() == rows.len(),
    decreases order.len(),
{
    if order.len() > 0 {
        lemma_sorted_len(rows, order.drop_last());
        lemma_parted_len(dealt(rows, order.drop_last()).1, order.last());
    }
}

proof fn lemma_parted_len(rows: Seq<RowV>, c: Oid)
    ensures
        rows_of(rows, c).len() + rows_but(rows, c).len() == rows.len(),
    decreases rows.len(),
{
    if rows.len() > 0 {
        lemma_parted_len(rows.drop_first(), c);
    }
}

impl App {
    /// Say this.
    fn say(&mut self, status: &str)
        ensures
            final(self)@ == old(self)@.say(status@),
    {
        self.status = status.to_owned();
    }

    /// `c`: cycle the conflict rule abort → ours → theirs → union → abort.
    pub fn cycle_favor(&mut self)
        ensures
            final(self)@ == old(self)@.cycled_favor(),
    {
        self.opts.favor = match self.opts.favor {
            None => Some(FileFavor::Ours),
            Some(FileFavor::Ours) => Some(FileFavor::Theirs),
            Some(FileFavor::Theirs) => Some(FileFavor::Union),
            Some(FileFavor::Union) => None,
        };
        self.status = match self.opts.favor {
            None => "conflict rule: abort (the default) — c cycles".to_owned(),
            Some(f) => "conflict rule: ".to_owned().concat(tui::favor_name(f)).concat(
                " — c cycles",
            ),
        };
    }

    /// `i`: ignore whitespace in merges, or not.
    fn toggle_ws(&mut self)
        ensures
            final(self)@ == old(self)@.toggled_ws(),
    {
        self.opts.ignore_ws = !self.opts.ignore_ws;
        if self.opts.ignore_ws {
            self.say("ignoring whitespace in every merge — i toggles");
        } else {
            self.say("whitespace is significant again (the default) — i toggles");
        }
    }

    /// `/` — narrow the tracked-file list. Only there: the file list is every file of
    /// the tip, which is unreachable by arrow key on a real repository.
    pub fn start_filter(&mut self)
        ensures
            final(self)@ == old(self)@.filtering(),
    {
        if self.source != Source::Files {
            self.say("/ filters the file list — press m first");
            return;
        }
        let text = self.filter.clone();
        self.input = Some(Prompt { label: "filter", text, what: Ask::Filter });
    }

    /// Undo a pending reorder's effect on the displayed list, and clear the mark.
    pub fn clear_shape(&mut self)
        requires
            old(self)@.wf(),
        ensures
            final(self)@ == old(self)@.unshaped(),
            final(self)@.wf(),
    {
        let mut shape = Shape::Unchanged;
        std::mem::swap(&mut shape, &mut self.shape);
        if let Shape::Reorder(orig) = shape {
            proof {
                lemma_sorted_len(self@.commits, orig@);
            }
            sort_rows(&mut self.commits, &orig);
        }
    }

    /// Shape keys act on a real commit in the commit list — say so rather than doing
    /// nothing. The phantom row is a destination, not a commit.
    pub fn shape_pane(&mut self) -> (b: bool)
        ensures
            b == old(self)@.takes_shape_keys(),
            final(self)@ == if b {
                old(self)@
            } else {
                old(self)@.refused_shape()
            },
    {
        if self.on_phantom() {
            self.say("the + row is a destination for hunks (t), not a commit");
            return false;
        }
        if self.focus == Pane::Commits {
            return true;
        }
        self.say("shape keys ([ ] d s r) work on the commit list");
        false
    }

    /// The commits of the list, as it is shown.
    fn shown_order(&self) -> (v: Vec<Oid>)
        ensures
            v@ == oids(self@.commits),
    {
        let mut v: Vec<Oid> = Vec::new();
        let mut i: usize = 0;
        while i < self.commits.len()
            invariant
                0 <= i <= self.commits@.len(),
                v@.len() == i,
                forall|j: int| 0 <= j < i ==> (#[trigger] v@[j]) == self.commits@[j].oid,
            decreases self.commits@.len() - i,
        {
            v.push(self.commits[i].oid);
            i += 1;
        }
        assert(v@ =~= oids(self@.commits)) by {
            assert forall|j: int| 0 <= j < v@.len() implies v@[j] == oids(self@.commits)[j] by {
                assert(self@.commits[j] == self.commits@[j]@);
            }
        }
        v
    }

    /// `[` and `]`: move the selected commit one step newer or older in the stack.
    pub fn move_commit(&mut self, delta: isize)
        requires
            old(self)@.wf(),
        ensures
            final(self)@ == old(self)@.moved_commit(delta as int),
            final(self)@.wf(),
    {
        if !self.shape_pane() {
            return;
        }
        let len: usize = self.commits.len();
        let to: usize = match offset(self.commit_cursor, delta) {
            Some(to) => to,
            None => {
                return;
            },
        };
        if to >= len {
            return;
        }
        let begun = match &self.shape {
            Shape::Reorder(_) => true,
            _ => false,
        };
        if !begun {
            let order = self.shown_order();
            self.shape = Shape::Reorder(order);
        }
        exchange(&mut self.commits, self.commit_cursor, to);
        self.commit_cursor = to;
        self.diff_scroll = 0;
        self.say("reordered — p: preview · Enter: apply · Esc: cancel");
    }

    /// `r`: open the inline prompt on the commit under the cursor, prefilled with its
    /// summary. Only the summary is edited — the body is kept on submit.
    pub fn start_reword(&mut self)
        ensures
            final(self)@ == old(self)@.rewording(),
    {
        if !self.shape_pane() {
            return;
        }
        if self.commit_cursor < self.commits.len() {
            assert(self@.commits[self.commit_cursor as int]
                == self.commits@[self.commit_cursor as int]@);
            let text = self.commits[self.commit_cursor].summary.clone();
            let oid = self.commits[self.commit_cursor].oid;
            self.input = Some(Prompt { label: "message", text, what: Ask::Reword(oid) });
        }
    }

    /// `d` and `s`: mark the commit under the cursor dropped, or squashed into its
    /// parent. Either replaces whatever shape edit was pending.
    pub fn mark_shape(&mut self, drop: bool)
        requires
            old(self)@.wf(),
        ensures
            final(self)@ == old(self)@.marked(drop),
            final(self)@.wf(),
    {
        if !self.shape_pane() {
            return;
        }
        let oid = match self.cursor_commit() {
            Some(oid) => oid,
            None => {
                return;
            },
        };
        self.clear_shape();
        self.shape = if drop {
            Shape::Drop(oid)
        } else {
            Shape::Squash(oid)
        };
        let verb = if drop {
            "drop"
        } else {
            "squash into its parent"
        };
        self.status = verb.to_owned().concat(" ").concat(&oid.short()).concat(
            " — p: preview · Enter: apply · Esc: cancel",
        );
    }

    /// Esc — step back out of wherever you are, one layer at a time.
    pub fn go_back(&mut self, was_pending: bool) -> (flow: Flow)
        requires
            old(self)@.wf(),
        ensures
            (final(self)@, flow) == old(self)@.backed(was_pending),
            final(self)@.wf(),
    {
        if was_pending {
            self.say("apply cancelled");
            return Flow::Continue;
        }
        let shaped = match &self.shape {
            Shape::Unchanged => false,
            _ => true,
        };
        if shaped {
            self.clear_shape();
            self.say("shape edit cancelled");
        } else if self.focus == Pane::Right {
            self.focus = Pane::Commits;
            self.say("back to the commit list");
        } else if self.source != Source::Staged {
            return Flow::ResetSource;
        } else {
            self.say("already at the top level — q to quit");
        }
        Flow::Continue
    }

    /// Home and End: jump the focused list to its first or last entry.
    pub fn jump(&mut self, to_end: bool)
        requires
            old(self)@.wf(),
        ensures
            final(self)@ == old(self)@.jumped(to_end),
            final(self)@.wf(),
    {
        let len: usize = if self.focus == Pane::Commits {
            self.commits.len()
        } else if self.source == Source::Files {
            self.visible_files().len()
        } else {
            self.flat.len()
        };
        let at: usize = if to_end && len > 0 {
            len - 1
        } else {
            0
        };
        if self.focus == Pane::Commits {
            self.commit_cursor = at;
            self.phantom_cursor = !to_end;
            self.diff_scroll = 0;
        } else if self.source == Source::Files {
            self.move_cursor = at;
        } else {
            self.hunk_cursor = at;
        }
    }

    /// Move the focused list's cursor. The phantom is one extra stop ABOVE the newest
    /// commit; it lives outside the commit list.
    pub fn move_cursor(&mut self, delta: isize)
        requires
            old(self)@.wf(),
        ensures
            final(self)@ == old(self)@.moved_cursor(delta as int),
            final(self)@.wf(),
    {
        if self.focus == Pane::Commits {
            let len: usize = self.commits.len();
            if !self.has_phantom() {
                self.commit_cursor = tui::step(self.commit_cursor, len, delta);
            } else if self.phantom_cursor {
                self.phantom_cursor = delta <= 0 || len == 0;
                self.commit_cursor = if delta <= 0 {
                    0
                } else {
                    tui::step(0, len, delta - 1)
                };
            } else {
                self.phantom_cursor = len == 0 || offset(self.commit_cursor, delta).is_none()
                    && delta < 0;
                self.commit_cursor = tui::step(self.commit_cursor, len, delta);
            }
            self.diff_scroll = 0;
        } else if self.source == Source::Files {
            self.move_cursor = tui::step(self.move_cursor, self.visible_files().len(), delta);
        } else {
            self.hunk_cursor = tui::step(self.hunk_cursor, self.flat.len(), delta);
        }
    }

    pub fn toggle_focus(&mut self)
        ensures
            final(self)@ == old(self)@.refocused(),
    {
        self.focus = match self.focus {
            Pane::Commits => Pane::Right,
            Pane::Right => Pane::Commits,
        };
    }

    /// `m`: swap the right pane to the tracked-file list, or back out of it. Leaving
    /// it reloads, exactly as leaving a commit source does.
    pub fn toggle_files(&mut self) -> (flow: Flow)
        ensures
            (final(self)@, flow) == old(self)@.toggled_files(),
    {
        if self.source == Source::Files {
            return Flow::ResetSource;
        }
        self.source = Source::Files;
        self.focus = Pane::Right;
        self.move_cursor = 0;
        self.say("move a whole file: pick it, Tab to a commit, t, then Enter");
        Flow::Continue
    }

    /// Space: toggle the hunk under the cursor. It is a HUNK verb, so it needs the
    /// hunk pane focused.
    pub fn toggle(&mut self)
        requires
            old(self)@.wf(),
        ensures
            final(self)@ == old(self)@.toggled(),
            final(self)@.wf(),
    {
        if self.focus != Pane::Right {
            self.say("Space picks hunks — Tab to the hunk pane first");
            return;
        }
        if self.source == Source::Files {
            return;
        }
        if let Some((f, h)) = self.cursor_hunk() {
            assert(self@.files[f as int] == self.files@[f as int]@);
            let on = !self.files[f].selected[h];
            self.files[f].pick(h, on);
            proof {
                let files = old(self)@.files.update(
                    f as int,
                    old(self)@.files[f as int].picking(h as int, on),
                );
                assert(self@.files =~= files);
                lemma_files(old(self)@, files);
            }
        }
    }

    /// `t`: send the current hunk, or the file to be moved, to the commit under the
    /// commit cursor. Routing a hunk to a new commit IS picking it.
    pub fn set_target(&mut self)
        requires
            old(self)@.wf(),
        ensures
            final(self)@ == old(self)@.targeted(),
            final(self)@.wf(),
    {
        let oid = match self.route_target() {
            Some(oid) => oid,
            None => {
                return;
            },
        };
        if oid != tui::phantom() && self.source == Source::Files {
            self.move_target = Some(oid);
            self.status = "move destination → ".to_owned().concat(&oid.short());
            return;
        }
        if let Some((f, h)) = self.cursor_hunk() {
            assert(self@.files[f as int] == self.files@[f as int]@);
            let ghost was = self@.files[f as int];
            if oid == tui::phantom() {
                self.files[f].pick(h, true);
                self.files[f].send(h, oid);
                proof {
                    let files = old(self)@.files.update(
                        f as int,
                        was.picking(h as int, true).sending(h as int, oid),
                    );
                    assert(self@.files =~= files);
                    lemma_files(old(self)@, files);
                }
                if self.phantom_is_tip() {
                    self.say("hunk → a NEW commit at the tip — ⏎ names it and commits");
                } else {
                    self.say("hunk → a NEW commit before the source (split) — ⏎ names it");
                }
                return;
            }
            self.files[f].send(h, oid);
            proof {
                let files = old(self)@.files.update(f as int, was.sending(h as int, oid));
                assert(self@.files =~= files);
                lemma_files(old(self)@, files);
            }
            let note = match self.source {
                Source::Commit(src) => if self.is_newer(oid, src) {
                    " (forward — may conflict)"
                } else {
                    " (backward — clean)"
                },
                _ => "",
            };
            proof {
                reveal_strlit("");
                assert(""@ =~= Seq::empty());
            }
            self.status = "hunk → ".to_owned().concat(&oid.short()).concat(note);
        }
    }

    /// `f`: route EVERY selected hunk to the commit under the cursor.
    pub fn route_all_to_cursor(&mut self)
        requires
            old(self)@.wf(),
        ensures
            final(self)@ == old(self)@.routed_all(),
            final(self)@.wf(),
    {
        let oid = match self.route_target() {
            Some(oid) => oid,
            None => {
                return;
            },
        };
        if self.source == Source::Files {
            return;
        }
        let n = self.picked();
        let ghost was = self@;
        let ghost files = was.files.map_values(|f: FileV| f.sending_picked(oid));
        let mut i: usize = 0;
        while i < self.files.len()
            invariant
                was.wf(),
                0 <= i <= self.files@.len(),
                files == was.files.map_values(|f: FileV| f.sending_picked(oid)),
                self@ == (AppV { files: self@.files, ..was }),
                self@.files.len() == files.len(),
                forall|j: int|
                    0 <= j < files.len() ==> (#[trigger] self@.files[j]) == if j < i {
                        files[j]
                    } else {
                        was.files[j]
                    },
            decreases self.files@.len() - i,
        {
            let ghost before = self@.files;
            assert(before[i as int] == self.files@[i as int]@);
            assert(was.files[i as int].wf());
            self.files[i].send_picked(oid);
            proof {
                assert(self@.files =~= before.update(i as int, files[i as int]));
                assert(self@ =~= (AppV { files: self@.files, ..was }));
            }
            i += 1;
        }
        proof {
            assert(self@.files =~= files);
            lemma_files(was, files);
        }
        self.status = if n == 0 {
            "nothing selected — pick hunks with Space first".to_owned()
        } else if oid == tui::phantom() {
            if self.phantom_is_tip() {
                text::decimal(n).concat(" selected hunk(s) → a NEW commit at the tip")
            } else {
                text::decimal(n).concat(
                    " selected hunk(s) → a NEW commit before the source (split)",
                )
            }
        } else {
            text::decimal(n).concat(" selected hunk(s) → ").concat(&oid.short()).concat(" (fix)")
        };
    }

    /// `a`: reset every hunk's target to inference's suggestion. A commit's own hunks
    /// have no inferred home, and the file list has no hunks.
    pub fn accept_inference(&mut self)
        requires
            old(self)@.wf(),
        ensures
            final(self)@ == old(self)@.accepted(),
            final(self)@.wf(),
    {
        match self.source {
            Source::Commit(_) => {
                self.say("no inference for a commit's hunks — pick destinations with t");
                return;
            },
            Source::Files => {
                self.say("the file list has no hunks to re-infer — Esc back to staged");
                return;
            },
            _ => {},
        }
        let ghost was = self@;
        let ghost files = was.files.map_values(|f: FileV| f.as_inferred());
        let mut i: usize = 0;
        while i < self.files.len()
            invariant
                was.wf(),
                0 <= i <= self.files@.len(),
                files == was.files.map_values(|f: FileV| f.as_inferred()),
                self@ == (AppV { files: self@.files, ..was }),
                self@.files.len() == files.len(),
                forall|j: int|
                    0 <= j < files.len() ==> (#[trigger] self@.files[j]) == if j < i {
                        files[j]
                    } else {
                        was.files[j]
                    },
            decreases self.files@.len() - i,
        {
            let ghost before = self@.files;
            assert(before[i as int] == self.files@[i as int]@);
            self.files[i].infer();
            proof {
                assert(self@.files =~= before.update(i as int, files[i as int]));
                assert(self@ =~= (AppV { files: self@.files, ..was }));
            }
            i += 1;
        }
        proof {
            assert(self@.files =~= files);
            assert forall|j: int| 0 <= j < files.len() implies (#[trigger] files[j]).wf()
                && files[j].selected.len() == was.files[j].selected.len() by {
                assert(was.files[j].wf());
            }
            lemma_files(was, files);
        }
        self.say("targets reset to inference (absorb)");
    }
}

// ── the key handler ─────────────────────────────────────────────────────────

/// Does the key only look?
fn navigates(key: Key) -> (b: bool)
    ensures
        b == looks(key),
{
    match key {
        Key::Up
        | Key::Down
        | Key::Home
        | Key::End
        | Key::PageUp
        | Key::PageDown
        | Key::Tab
        | Key::BackTab
        | Key::Left
        | Key::Right => true,
        _ => false,
    }
}

impl App {
    /// A key typed into the open prompt.
    fn type_key(&mut self, prompt: Prompt, key: Key) -> (flow: Flow)
        requires
            old(self).input is None,
        ensures
            (final(self)@, flow) == (AppV { input: Some(prompt@), ..old(self)@ }).typed(
                prompt@,
                key,
            ),
    {
        let mut p = prompt;
        let filtering = p.what == Ask::Filter;
        match key {
            Key::Char(c) => {
                p.text.push(c);
            },
            Key::Backspace => {
                let _ = p.text.pop();
            },
            Key::Enter => {
                self.input = Some(p);
                return Flow::Submit;
            },
            Key::Esc => {
                self.filter = String::new();
                self.say("cancelled");
                if filtering {
                    self.move_cursor = 0;
                }
                assert(self.filter@ =~= Seq::empty());
                return Flow::Continue;
            },
            _ => {},
        }
        if filtering {
            self.filter = p.text.clone();
            self.move_cursor = 0;
        }
        self.input = Some(p);
        Flow::Continue
    }

    /// `q`: quit, or warn where routing would be lost.
    fn quit(&mut self, was_quitting: bool) -> (flow: Flow)
        requires
            old(self)@.wf(),
        ensures
            (final(self)@, flow) == old(self)@.quitting(was_quitting),
    {
        match self.unapplied() {
            Some(what) => {
                if was_quitting {
                    return Flow::Quit;
                }
                self.pending_quit = true;
                self.status = "q again to quit and lose ".to_owned().concat(&what).concat(
                    " — ⏎ applies, p previews",
                );
                Flow::Continue
            },
            None => Flow::Quit,
        }
    }

    /// A letter or sign, once neither the prompt nor the help has taken it.
    fn act_on_char(&mut self, c: char, was_quitting: bool) -> (flow: Flow)
        requires
            old(self)@.wf(),
        ensures
            (final(self)@, flow) == lettered(old(self)@, c, was_quitting),
            final(self)@.wf(),
    {
        match c {
            'q' => {
                return self.quit(was_quitting);
            },
            '?' => {
                self.help = true;
            },
            ' ' => self.toggle(),
            't' => self.set_target(),
            'f' => self.route_all_to_cursor(),
            'a' => self.accept_inference(),
            'm' => {
                return self.toggle_files();
            },
            'e' => {
                return Flow::OpenCommit;
            },
            'w' => {
                return Flow::OpenUnstaged;
            },
            '/' => self.start_filter(),
            '[' => self.move_commit(-1),
            ']' => self.move_commit(1),
            'd' => self.mark_shape(true),
            's' => self.mark_shape(false),
            'r' => self.start_reword(),
            'p' => {
                return Flow::Preview;
            },
            'u' => {
                return Flow::Undo;
            },
            'c' => {
                self.cycle_favor();
                return Flow::Preview;
            },
            'i' => {
                self.toggle_ws();
                return Flow::Preview;
            },
            _ => {},
        }
        Flow::Continue
    }

    /// Any key, once neither the prompt nor the help has taken it.
    fn act(&mut self, key: Key, was_pending: bool, was_quitting: bool) -> (flow: Flow)
        requires
            old(self)@.wf(),
        ensures
            (final(self)@, flow) == acted(old(self)@, key, was_pending, was_quitting),
            final(self)@.wf(),
    {
        match key {
            Key::Char(c) => {
                return self.act_on_char(c, was_quitting);
            },
            Key::Esc => {
                return self.go_back(was_pending);
            },
            Key::Down => self.move_cursor(1),
            Key::Up => self.move_cursor(-1),
            Key::Home => self.jump(false),
            Key::End => self.jump(true),
            Key::PageDown => {
                self.diff_scroll = self.diff_scroll.saturating_add(10);
            },
            Key::PageUp => {
                self.diff_scroll = self.diff_scroll.saturating_sub(10);
            },
            Key::Tab | Key::BackTab | Key::Right | Key::Left => self.toggle_focus(),
            Key::Enter => {
                return Flow::Apply;
            },
            Key::Backspace | Key::Other => {},
        }
        Flow::Continue
    }
}

/// The key handler: change the screen and say what the driver should do.
pub fn on_key(app: &mut App, key: Key) -> (flow: Flow)
    requires
        old(app)@.wf(),
    ensures
        (final(app)@, flow) == pressed(old(app)@, key),
        final(app)@.wf(),
{
    let input = app.input.take();
    if let Some(p) = input {
        return app.type_key(p, key);
    }
    if app.help {
        app.help = false;
        return Flow::Continue;
    }
    let was_pending = app.pending_apply;
    if key != Key::Enter && !navigates(key) {
        app.pending_apply = false;
    }
    let was_quitting = app.pending_quit;
    if key != Key::Char('q') {
        app.pending_quit = false;
    }
    app.act(key, was_pending, was_quitting)
}

} // verus!
