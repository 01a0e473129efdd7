//! What holds of the screen, whatever is pressed and whatever comes back.

use crate::absorb::DeltaV;
use crate::engine::RecipeV;
use crate::git::FileFavor;
use crate::oid::Oid;
use crate::ops::RequestV;
use crate::patch::HunkV;
use crate::recipe::ShapedV;
use crate::tui;
use crate::tui::flow;
use crate::tui::flow::{Goal, JobV, NewsV, WantV};
use crate::tui::keys;
use crate::tui::labels;
use crate::tui::source;
use crate::tui::source::{FoundV, Looking};
use crate::tui::view;
use crate::tui::{AppV, FileV, Flow, Key, Pane, RowV, ShapeV, Source};
use crate::undo;
use vstd::prelude::*;

verus! {

// ── keys ────────────────────────────────────────────────────────────────────

/// While the prompt is open it takes EVERY key: nothing is obeyed but Enter, which
/// submits, and an armed apply stays armed.
pub proof fn the_prompt_swallows_every_key(s: AppV, key: Key)
    requires
        s.input is Some,
    ensures
        ({
            let (t, flow) = keys::pressed(s, key);
            &&& flow == if key == Key::Enter {
                Flow::Submit
            } else {
                Flow::Continue
            }
            &&& t == AppV {
                input: t.input,
                filter: t.filter,
                status: t.status,
                move_cursor: t.move_cursor,
                ..s
            }
        }),
{
}

/// The key that closes the help does nothing else.
pub proof fn any_key_closes_help_and_does_nothing_else(s: AppV, key: Key)
    requires
        s.input is None,
        s.help,
    ensures
        keys::pressed(s, key) == (AppV { help: false, ..s }, Flow::Continue),
{
}

/// Neither the prompt nor the help takes the key.
pub open spec fn listening(s: AppV) -> bool {
    s.input is None && !s.help
}

/// A key that only looks keeps an armed apply armed, and cannot change what would be
/// applied: what is picked, where it goes, the shape, the order, the options.
pub proof fn looking_keeps_the_plan(s: AppV, key: Key)
    requires
        listening(s),
        keys::looks(key),
    ensures
        ({
            let (t, flow) = keys::pressed(s, key);
            &&& flow == Flow::Continue
            &&& t.pending_apply == s.pending_apply
            &&& t.files == s.files
            &&& t.flat == s.flat
            &&& t.commits == s.commits
            &&& t.shape == s.shape
            &&& t.source == s.source
            &&& t.source_base == s.source_base
            &&& t.move_target == s.move_target
            &&& t.opts == s.opts
            &&& t.filter == s.filter
        }),
{
}

/// Any other key but Enter takes an armed apply back, so that an arm never fires late
/// against a plan that was edited since.
pub proof fn any_other_key_disarms(s: AppV, key: Key)
    requires
        listening(s),
        !keys::looks(key),
        key != Key::Enter,
    ensures
        !keys::pressed(s, key).0.pending_apply,
{
}

/// The letters and signs that do something.
pub open spec fn bound(c: char) -> bool {
    ||| c == 'q'
    ||| c == '?'
    ||| c == ' '
    ||| c == 't'
    ||| c == 'f'
    ||| c == 'a'
    ||| c == 'm'
    ||| c == 'e'
    ||| c == 'w'
    ||| c == '/'
    ||| c == '['
    ||| c == ']'
    ||| c == 'd'
    ||| c == 's'
    ||| c == 'r'
    ||| c == 'p'
    ||| c == 'u'
    ||| c == 'c'
    ||| c == 'i'
}

/// Every other letter or sign is inert. No letter that takes the shift key is bound,
/// and neither are `h`, `j`, `k` and `l`.
pub proof fn other_letters_are_inert(s: AppV, c: char)
    requires
        listening(s),
        !bound(c),
    ensures
        keys::pressed(s, Key::Char(c)) == (
            AppV { pending_apply: false, pending_quit: false, ..s },
            Flow::Continue,
        ),
        forall|d: char| 'A' <= d <= 'Z' ==> !#[trigger] bound(d),
        !bound('h') && !bound('j') && !bound('k') && !bound('l'),
{
}

/// `q` quits at once where nothing would be lost. Where something would, the first `q`
/// only warns, and the second quits.
pub proof fn quitting_loses_nothing_unwarned(s: AppV)
    requires
        listening(s),
    ensures
        ({
            let (t, flow) = keys::pressed(s, Key::Char('q'));
            &&& s.unapplied() is None ==> flow == Flow::Quit
            &&& s.unapplied() is Some && !s.pending_quit ==> flow == Flow::Continue
                && t.pending_quit && keys::pressed(t, Key::Char('q')).1 == Flow::Quit
        }),
{
    let t = keys::pressed(s, Key::Char('q')).0;
    assert(t.files == s.files && t.shape == s.shape && t.move_target == s.move_target);
}

/// Any other key takes the warning back, and none of them quits.
pub proof fn only_q_quits(s: AppV, key: Key)
    requires
        listening(s),
        key != Key::Char('q'),
    ensures
        !keys::pressed(s, key).0.pending_quit,
        keys::pressed(s, key).1 != Flow::Quit,
{
    let m = AppV {
        pending_apply: s.pending_apply && (key == Key::Enter || keys::looks(key)),
        pending_quit: false,
        ..s
    };
    if let Key::Char(c) = key {
        lemma_letter_keeps(m, c, s.pending_quit);
    }
}

proof fn lemma_letter_keeps(s: AppV, c: char, was_quitting: bool)
    requires
        c != 'q',
        !s.pending_quit,
    ensures
        !keys::lettered(s, c, was_quitting).0.pending_quit,
        keys::lettered(s, c, was_quitting).1 != Flow::Quit,
{
    if c == 't' {
        assert(!s.targeted().pending_quit);
    } else if c == 'd' || c == 's' {
        assert(!s.marked(c == 'd').pending_quit);
    } else if c == '[' || c == ']' {
        assert(!s.moved_commit(1).pending_quit);
        assert(!s.moved_commit(-1).pending_quit);
    }
}

/// Four presses of `c` come back to the same conflict rule.
pub proof fn the_conflict_rules_come_round(f: Option<FileFavor>)
    ensures
        keys::next_favor(keys::next_favor(keys::next_favor(keys::next_favor(f)))) == f,
{
}

/// Picking a hunk and unpicking it leaves everything as it was.
pub proof fn space_twice_changes_nothing(s: AppV)
    requires
        s.wf(),
        s.focus == Pane::Right,
    ensures
        s.toggled().toggled() == s,
{
    if s.source != Source::Files {
        if let Some((f, h)) = s.cursor_hunk() {
            let t = s.toggled();
            let was = s.files[f as int];
            assert(t.files[f as int].selected =~= was.selected.update(
                h as int,
                !was.selected[h as int],
            ));
            assert(t.files[f as int].picking(h as int, was.selected[h as int]).selected
                =~= was.selected);
            assert(t.toggled().files[f as int] =~= was);
            assert(t.toggled().files =~= s.files);
        }
    }
}

// ── the commit list ─────────────────────────────────────────────────────────

/// How often a commit occurs among the rows.
pub open spec fn occurrences(rows: Seq<RowV>, c: Oid) -> nat
    decreases rows.len(),
{
    if rows.len() == 0 {
        0
    } else {
        occurrences(rows.drop_first(), c) + if rows[0].oid == c {
            1nat
        } else {
            0nat
        }
    }
}

/// The two lists hold the same commits, each as often.
pub open spec fn same_commits(a: Seq<RowV>, b: Seq<RowV>) -> bool {
    forall|c: Oid| #[trigger] occurrences(a, c) == occurrences(b, c)
}

proof fn lemma_occurrences_add(a: Seq<RowV>, b: Seq<RowV>, c: Oid)
    ensures
        occurrences(a + b, c) == occurrences(a, c) + occurrences(b, c),
    decreases a.len(),
{
    if a.len() == 0 {
        assert(a + b =~= b);
    } else {
        assert((a + b).drop_first() =~= a.drop_first() + b);
        lemma_occurrences_add(a.drop_first(), b, c);
    }
}

proof fn lemma_occurrences_parted(rows: Seq<RowV>, o: Oid, c: Oid)
    ensures
        occurrences(keys::rows_of(rows, o), c) + occurrences(keys::rows_but(rows, o), c)
            == occurrences(rows, c),
    decreases rows.len(),
{
    if rows.len() > 0 {
        let rest = rows.drop_first();
        let one = seq![rows[0]];
        lemma_occurrences_parted(rest, o, c);
        assert(one.drop_first() =~= Seq::empty());
        assert(occurrences(one, c) == if rows[0].oid == c {
            1nat
        } else {
            0nat
        }) by {
            assert(occurrences(one.drop_first(), c) == 0);
        }
        lemma_occurrences_add(one, keys::rows_of(rest, o), c);
        lemma_occurrences_add(one, keys::rows_but(rest, o), c);
    }
}

proof fn lemma_occurrences_sorted(rows: Seq<RowV>, order: Seq<Oid>, c: Oid)
    ensures
        occurrences(keys::sorted(rows, order), c) == occurrences(rows, c),
    decreases order.len(),
{
    let (out, rest) = keys::dealt(rows, order);
    lemma_occurrences_add(out, rest, c);
    if order.len() > 0 {
        lemma_occurrences_sorted(rows, order.drop_last(), c);
        let (a, b) = keys::dealt(rows, order.drop_last());
        lemma_occurrences_add(a, b, c);
        lemma_occurrences_add(a, keys::rows_of(b, order.last()), c);
        lemma_occurrences_parted(b, order.last(), c);
    }
}

proof fn lemma_occurrences_update(rows: Seq<RowV>, i: int, r: RowV, c: Oid)
    requires
        0 <= i < rows.len(),
    ensures
        occurrences(rows.update(i, r), c) + (if rows[i].oid == c {
            1nat
        } else {
            0nat
        }) == occurrences(rows, c) + (if r.oid == c {
            1nat
        } else {
            0nat
        }),
    decreases rows.len(),
{
    let next = rows.update(i, r);
    if i == 0 {
        assert(next.drop_first() =~= rows.drop_first());
    } else {
        assert(next.drop_first() =~= rows.drop_first().update(i - 1, r));
        lemma_occurrences_update(rows.drop_first(), i - 1, r, c);
    }
}

proof fn lemma_occurrences_exchanged(rows: Seq<RowV>, i: int, j: int, c: Oid)
    requires
        0 <= i < rows.len(),
        0 <= j < rows.len(),
    ensures
        occurrences(keys::exchanged(rows, i, j), c) == occurrences(rows, c),
{
    lemma_occurrences_update(rows, i, rows[j], c);
    lemma_occurrences_update(rows.update(i, rows[j]), j, rows[i], c);
}

proof fn lemma_commits_moved(s: AppV, delta: int)
    requires
        s.wf(),
    ensures
        same_commits(s.moved_commit(delta).commits, s.commits),
{
    let to = s.commit_cursor + delta;
    assert forall|c: Oid| #[trigger]
        occurrences(s.moved_commit(delta).commits, c) == occurrences(s.commits, c) by {
        if s.takes_shape_keys() && 0 <= to < s.commits.len() {
            lemma_occurrences_exchanged(s.commits, s.commit_cursor as int, to, c);
        }
    }
}

proof fn lemma_commits_unshaped(s: AppV)
    ensures
        same_commits(s.unshaped().commits, s.commits),
{
    assert forall|c: Oid| #[trigger]
        occurrences(s.unshaped().commits, c) == occurrences(s.commits, c) by {
        if let ShapeV::Reorder(orig) = s.shape {
            lemma_occurrences_sorted(s.commits, orig, c);
        }
    }
}

proof fn lemma_commits_lettered(s: AppV, c: char, was_quitting: bool)
    requires
        s.wf(),
    ensures
        same_commits(keys::lettered(s, c, was_quitting).0.commits, s.commits),
{
    lemma_commits_moved(s, 1);
    lemma_commits_moved(s, -1);
    lemma_commits_unshaped(s);
    if c == 't' {
        assert(s.targeted().commits == s.commits);
    } else if c == 'd' || c == 's' {
        assert(s.marked(c == 'd').commits == s.commits || s.marked(c == 'd').commits
            == s.unshaped().commits);
    } else if c != '[' && c != ']' {
        assert(keys::lettered(s, c, was_quitting).0.commits == s.commits);
    }
}

/// No key adds a commit to the list or takes one away; so the row of the new commit,
/// which is not in the list when it is read, never gets into it.
pub proof fn keys_only_reorder_the_commit_list(s: AppV, key: Key)
    requires
        s.wf(),
    ensures
        same_commits(keys::pressed(s, key).0.commits, s.commits),
{
    if listening(s) {
        let m = AppV {
            pending_apply: s.pending_apply && (key == Key::Enter || keys::looks(key)),
            pending_quit: s.pending_quit && key == Key::Char('q'),
            ..s
        };
        lemma_commits_unshaped(m);
        match key {
            Key::Char(c) => {
                lemma_commits_lettered(m, c, s.pending_quit);
            },
            Key::Esc => {},
            _ => {
                assert(keys::pressed(s, key).0.commits == s.commits);
            },
        }
    } else {
        assert(keys::pressed(s, key).0.commits == s.commits);
    }
}

/// Every commit stands in the list once.
pub open spec fn distinct_rows(rows: Seq<RowV>) -> bool {
    forall|c: Oid| #[trigger] occurrences(rows, c) <= 1
}

/// The selected commit moved step by step.
pub open spec fn moved_along(s: AppV, deltas: Seq<int>) -> AppV
    decreases deltas.len(),
{
    if deltas.len() == 0 {
        s
    } else {
        moved_along(s, deltas.drop_last()).moved_commit(deltas.last())
    }
}

/// The rows hold each of these commits once, and no other.
pub open spec fn rows_for(rows: Seq<RowV>, order: Seq<Oid>) -> bool {
    &&& forall|c: Oid| #[trigger] occurrences(rows, c) == if order.contains(c) {
        1nat
    } else {
        0nat
    }
    &&& forall|i: int, j: int| 0 <= i < j < order.len() ==> order[i] != order[j]
}

proof fn lemma_one_row(rows: Seq<RowV>, c: Oid)
    ensures
        keys::rows_of(rows, c).len() == occurrences(rows, c),
        forall|i: int|
            0 <= i < keys::rows_of(rows, c).len() ==> (#[trigger] keys::rows_of(
                rows,
                c,
            )[i]).oid == c,
    decreases rows.len(),
{
    if rows.len() > 0 {
        lemma_one_row(rows.drop_first(), c);
        if rows[0].oid == c {
            let rest = keys::rows_of(rows.drop_first(), c);
            let all = seq![rows[0]] + rest;
            assert forall|i: int| 0 <= i < all.len() implies (#[trigger] all[i]).oid == c by {
                if i > 0 {
                    assert(all[i] == rest[i - 1]);
                }
            }
        }
    }
}

proof fn lemma_no_rows(rows: Seq<RowV>)
    requires
        forall|c: Oid| #[trigger] occurrences(rows, c) == 0,
    ensures
        rows.len() == 0,
{
    if rows.len() > 0 {
        assert(occurrences(rows, rows[0].oid) > 0);
    }
}

proof fn lemma_but(rows: Seq<RowV>, o: Oid, c: Oid)
    ensures
        occurrences(keys::rows_but(rows, o), c) == if c == o {
            0nat
        } else {
            occurrences(rows, c)
        },
    decreases rows.len(),
{
    if rows.len() > 0 {
        lemma_but(rows.drop_first(), o, c);
        if rows[0].oid != o {
            let one = seq![rows[0]];
            assert(one.drop_first() =~= Seq::empty());
            assert(occurrences(one.drop_first(), c) == 0);
            lemma_occurrences_add(one, keys::rows_but(rows.drop_first(), o), c);
        }
    }
}

/// Dealt out in an order of commits that stand in the list once each, the rows come in
/// that order.
proof fn lemma_dealt(rows: Seq<RowV>, order: Seq<Oid>)
    requires
        forall|i: int, j: int| 0 <= i < j < order.len() ==> order[i] != order[j],
        forall|i: int| 0 <= i < order.len() ==> occurrences(rows, #[trigger] order[i]) == 1,
    ensures
        keys::oids(keys::dealt(rows, order).0) == order,
        forall|c: Oid| #[trigger]
            occurrences(keys::dealt(rows, order).1, c) == if order.contains(c) {
                0nat
            } else {
                occurrences(rows, c)
            },
    decreases order.len(),
{
    if order.len() == 0 {
        assert(keys::oids(keys::dealt(rows, order).0) =~= order);
    } else {
        let front = order.drop_last();
        let o = order.last();
        assert(forall|i: int| 0 <= i < front.len() ==> front[i] == order[i]);
        lemma_dealt(rows, front);
        let (a, b) = keys::dealt(rows, front);
        assert(!front.contains(o)) by {
            if front.contains(o) {
                let i = front.index_of(o);
                assert(order[i] == order[order.len() - 1]);
            }
        }
        assert(order[order.len() - 1] == o);
        assert(occurrences(b, o) == 1);
        lemma_one_row(b, o);
        let one = keys::rows_of(b, o);
        assert(one.len() == 1 && one[0].oid == o);
        assert(keys::oids(a + one) =~= keys::oids(a).push(o));
        assert(front.push(o) =~= order);
        assert forall|c: Oid| #[trigger]
            occurrences(keys::dealt(rows, order).1, c) == if order.contains(c) {
                0nat
            } else {
                occurrences(rows, c)
            } by {
            lemma_but(b, o, c);
            assert(occurrences(b, c) == if front.contains(c) {
                0nat
            } else {
                occurrences(rows, c)
            });
            if order.contains(c) && c != o {
                let i = order.index_of(c);
                assert(front[i] == c);
            }
            if front.contains(c) {
                let i = front.index_of(c);
                assert(order[i] == c);
            }
        }
    }
}

proof fn lemma_sorted_back(rows: Seq<RowV>, order: Seq<Oid>)
    requires
        rows_for(rows, order),
    ensures
        keys::oids(keys::sorted(rows, order)) == order,
{
    assert forall|i: int| 0 <= i < order.len() implies occurrences(rows, #[trigger] order[i])
        == 1 by {
        assert(order.contains(order[i]));
    }
    lemma_dealt(rows, order);
    let (out, rest) = keys::dealt(rows, order);
    assert forall|c: Oid| #[trigger] occurrences(rest, c) == 0 by {
        assert(occurrences(rows, c) == if order.contains(c) {
            1nat
        } else {
            0nat
        });
    }
    lemma_no_rows(rest);
    assert(out + rest =~= out);
}

proof fn lemma_occurs(rows: Seq<RowV>, c: Oid)
    ensures
        occurrences(rows, c) > 0 <==> keys::oids(rows).contains(c),
    decreases rows.len(),
{
    if rows.len() > 0 {
        lemma_occurs(rows.drop_first(), c);
        let rest = keys::oids(rows.drop_first());
        let all = keys::oids(rows);
        if rest.contains(c) {
            let i = rest.index_of(c);
            assert(all[i + 1] == rest[i]);
        }
        if all.contains(c) {
            let i = all.index_of(c);
            if i > 0 {
                assert(rest[i - 1] == all[i]);
            } else {
                assert(rows[0].oid == c);
            }
        }
        if rows[0].oid == c {
            assert(all[0] == c);
        }
    }
}

proof fn lemma_twice(rows: Seq<RowV>, i: int, j: int)
    requires
        0 <= i < j < rows.len(),
        rows[i].oid == rows[j].oid,
    ensures
        occurrences(rows, rows[i].oid) >= 2,
    decreases rows.len(),
{
    let rest = rows.drop_first();
    if i == 0 {
        lemma_occurs(rest, rows[0].oid);
        assert(keys::oids(rest)[j - 1] == rows[0].oid);
    } else {
        assert(rest[i - 1] == rows[i] && rest[j - 1] == rows[j]);
        lemma_twice(rest, i - 1, j - 1);
    }
}

proof fn lemma_rows_for_themselves(rows: Seq<RowV>)
    requires
        distinct_rows(rows),
    ensures
        rows_for(rows, keys::oids(rows)),
{
    assert forall|c: Oid| #[trigger] occurrences(rows, c) == if keys::oids(rows).contains(c) {
        1nat
    } else {
        0nat
    } by {
        lemma_occurs(rows, c);
    }
    let order = keys::oids(rows);
    assert forall|i: int, j: int| 0 <= i < j < order.len() implies order[i] != order[j] by {
        if order[i] == order[j] {
            lemma_twice(rows, i, j);
            assert(occurrences(rows, rows[i].oid) <= 1);
        }
    }
}

proof fn lemma_moved(s: AppV, order: Seq<Oid>, deltas: Seq<int>)
    requires
        s.wf(),
        s.takes_shape_keys(),
        s.shape == ShapeV::Unchanged,
        order == keys::oids(s.commits),
        rows_for(s.commits, order),
    ensures
        ({
            let t = moved_along(s, deltas);
            &&& t.commit_cursor < t.commits.len() || t.commits.len() == 0
            &&& t.commits.len() == s.commits.len()
            &&& t.takes_shape_keys()
            &&& rows_for(t.commits, order)
            &&& t.shape == ShapeV::Reorder(order) || (t.shape == ShapeV::Unchanged && t.commits
                == s.commits)
        }),
    decreases deltas.len(),
{
    if deltas.len() > 0 {
        lemma_moved(s, order, deltas.drop_last());
        let m = moved_along(s, deltas.drop_last());
        let t = m.moved_commit(deltas.last());
        let to = m.commit_cursor + deltas.last();
        if 0 <= to < m.commits.len() {
            assert forall|c: Oid| #[trigger] occurrences(t.commits, c) == if order.contains(c) {
                1nat
            } else {
                0nat
            } by {
                lemma_occurrences_exchanged(m.commits, m.commit_cursor as int, to, c);
                assert(occurrences(m.commits, c) == if order.contains(c) {
                    1nat
                } else {
                    0nat
                });
            }
        }
    }
}

/// However often a commit was moved about, cancelling puts the whole list back in the
/// order it had, and leaves no shape edit behind.
pub proof fn cancelling_a_reorder_puts_the_list_back(s: AppV, deltas: Seq<int>)
    requires
        s.wf(),
        s.takes_shape_keys(),
        s.shape == ShapeV::Unchanged,
        distinct_rows(s.commits),
    ensures
        keys::oids(moved_along(s, deltas).unshaped().commits) == keys::oids(s.commits),
        moved_along(s, deltas).unshaped().shape == ShapeV::Unchanged,
{
    let order = keys::oids(s.commits);
    lemma_rows_for_themselves(s.commits);
    lemma_moved(s, order, deltas);
    let t = moved_along(s, deltas);
    if t.shape == ShapeV::Reorder(order) {
        lemma_sorted_back(t.commits, order);
    }
}

// ── the routing ─────────────────────────────────────────────────────────────

/// The counts of the first `n` destinations together.
pub open spec fn total(v: Seq<(Oid, nat)>, n: int) -> nat
    decreases n,
{
    if n <= 0 {
        0
    } else {
        total(v, n - 1) + v[n - 1].1
    }
}

/// The number of times the first `n` of these commits occur.
pub open spec fn covered(r: Seq<Oid>, ts: Seq<Oid>, n: int) -> nat
    decreases n,
{
    if n <= 0 {
        0
    } else {
        covered(r, ts, n - 1) + labels::times(r, ts[n - 1])
    }
}

proof fn lemma_total(r: Seq<Oid>, n: int)
    requires
        n <= labels::firsts(r).len(),
    ensures
        total(labels::tally(r), n) == covered(r, labels::firsts(r), n),
    decreases n,
{
    if n > 0 {
        lemma_total(r, n - 1);
    }
}

proof fn lemma_covered_more(r: Seq<Oid>, ts: Seq<Oid>, n: int)
    requires
        r.len() > 0,
        0 <= n <= ts.len(),
        forall|i: int, j: int| 0 <= i < j < ts.len() ==> ts[i] != ts[j],
    ensures
        covered(r, ts, n) == covered(r.drop_last(), ts, n) + if ts.take(n).contains(r.last()) {
            1nat
        } else {
            0nat
        },
    decreases n,
{
    if n > 0 {
        lemma_covered_more(r, ts, n - 1);
        let a = ts.take(n - 1);
        let b = ts.take(n);
        if a.contains(r.last()) {
            let i = a.index_of(r.last());
            assert(b[i] == r.last());
            assert(ts[i] != ts[n - 1]);
        }
        if b.contains(r.last()) && ts[n - 1] != r.last() {
            let i = b.index_of(r.last());
            assert(a[i] == r.last());
        }
        if ts[n - 1] == r.last() {
            assert(b[n - 1] == r.last());
        }
    }
}

proof fn lemma_covered_push(r: Seq<Oid>, ts: Seq<Oid>, t: Oid, n: int)
    requires
        0 <= n <= ts.len(),
    ensures
        covered(r, ts.push(t), n) == covered(r, ts, n),
    decreases n,
{
    if n > 0 {
        lemma_covered_push(r, ts, t, n - 1);
    }
}

proof fn lemma_covered(r: Seq<Oid>)
    ensures
        covered(r, labels::firsts(r), labels::firsts(r).len() as int) == r.len(),
        forall|i: int, j: int|
            0 <= i < j < labels::firsts(r).len() ==> labels::firsts(r)[i] != labels::firsts(r)[j],
    decreases r.len(),
{
    if r.len() > 0 {
        let front = r.drop_last();
        lemma_covered(front);
        let ts = labels::firsts(front);
        let n = ts.len() as int;
        lemma_covered_more(r, ts, n);
        assert(ts.take(n) =~= ts);
        if !ts.contains(r.last()) {
            let all = ts.push(r.last());
            lemma_covered_push(r, ts, r.last(), n);
            labels::lemma_tally(front, r.last());
            assert(labels::times(r, r.last()) == 1);
            assert forall|i: int, j: int| 0 <= i < j < all.len() implies all[i] != all[j] by {
                if j == n {
                    assert(ts.contains(ts[i]));
                }
            }
        }
    }
}

/// The counts on the commit rows add up to the number of hunks that are routed: the
/// plan on the screen leaves none out, and shows none twice.
pub proof fn the_routing_counts_every_hunk_once(s: AppV)
    ensures
        total(
            labels::tally(tui::routes_of(s.files)),
            labels::tally(tui::routes_of(s.files)).len() as int,
        ) == tui::routes_of(s.files).len(),
{
    let r = tui::routes_of(s.files);
    lemma_total(r, labels::firsts(r).len() as int);
    lemma_covered(r);
}

// ── previewing and applying ─────────────────────────────────────────────────

impl JobV {
    /// What it is run for; a reword, and a commit at the tip that is made, are applied.
    pub open spec fn goal(self) -> Option<Goal> {
        match self {
            JobV::Idle => None,
            JobV::Shape(goal) => Some(goal),
            JobV::ShapeFrom(goal, _) => Some(goal),
            JobV::Move { goal, .. } => Some(goal),
            JobV::MoveAt { .. } => Some(Goal::Apply),
            JobV::Fold(goal) => Some(goal),
            JobV::FoldFrom(goal, _) => Some(goal),
            JobV::Split { goal, .. } => Some(goal),
            JobV::SplitAt { goal, .. } => Some(goal),
            JobV::SplitFrom { goal, .. } => Some(goal),
            JobV::Tip(goal) => Some(goal),
            JobV::TipAt(_) => Some(Goal::Apply),
            JobV::Reword { .. } => Some(Goal::Apply),
            JobV::RewordAt { .. } => Some(Goal::Apply),
        }
    }
}

impl WantV {
    /// It moves no ref, and writes neither worktree nor index.
    pub open spec fn harmless(self) -> bool {
        match self {
            WantV::Rewrite(r) => r.dry_run || r.trial,
            WantV::Promote(_) => false,
            WantV::Refresh { .. } => false,
            _ => true,
        }
    }
}

/// A preview, and the first Enter, begin what is not applied.
pub proof fn nothing_is_applied_at_first(s: AppV)
    ensures
        s.previewed().job.goal() == Some(Goal::Try) || s.previewed().job == JobV::Idle,
        s.previewed().want.harmless(),
        !s.pending_apply ==> {
            &&& s.executed().job.goal() == Some(Goal::Arm) || s.executed().job == JobV::Idle
            &&& s.executed().want.harmless()
        },
{
}

/// A preview of folded hunks replays what the apply replays, and so does the arming.
pub proof fn a_preview_replays_what_an_apply_does(
    s: AppV,
    goal: Goal,
    recipe: RecipeV,
    base: Option<Oid>,
    ids: Seq<Oid>,
)
    ensures
        s.fold_rewrite(goal, recipe, base).job(ids) == s.fold_rewrite(
            Goal::Apply,
            recipe,
            base,
        ).job(ids),
{
}

/// Where every picked hunk goes into the new commit, nothing is folded elsewhere.
pub proof fn a_split_takes_the_whole_selection(s: AppV)
    requires
        s.wf(),
        !s.strays(),
    ensures
        s.folds().len() == 0,
{
    lemma_no_folds(s, s.files.len() as int);
}

proof fn lemma_aims_part(files: Seq<FileV>, i: int)
    requires
        0 <= i < files.len(),
    ensures
        forall|t: Oid|
            tui::aims(
                files[i].selected,
                files[i].targets,
                files[i].selected.len() as int,
            ).contains(t) ==> #[trigger] tui::routes_of(files).contains(t),
    decreases files.len(),
{
    let f = files.last();
    let front = tui::routes_of(files.drop_last());
    let back = tui::aims(f.selected, f.targets, f.selected.len() as int);
    assert forall|t: Oid|
        tui::aims(
            files[i].selected,
            files[i].targets,
            files[i].selected.len() as int,
        ).contains(t) implies #[trigger] tui::routes_of(files).contains(t) by {
        if i == files.len() - 1 {
            let j = back.index_of(t);
            assert((front + back)[front.len() + j] == t);
        } else {
            lemma_aims_part(files.drop_last(), i);
            assert(files.drop_last()[i] == files[i]);
            assert(front.contains(t));
            let j = front.index_of(t);
            assert((front + back)[j] == t);
        }
    }
}

proof fn lemma_no_folds(s: AppV, n: int)
    requires
        s.wf(),
        !s.strays(),
        n <= s.files.len(),
    ensures
        s.folds_in(n).len() == 0,
    decreases n,
{
    if n > 0 {
        lemma_no_folds(s, n - 1);
        let f = s.files[n - 1];
        assert(f.wf());
        let r = tui::aims(f.selected, f.targets, f.selected.len() as int);
        lemma_aims_part(s.files, n - 1);
        assert forall|t: Oid| #[trigger] r.contains(t) implies t == tui::phantom() by {
            let all = tui::routes_of(s.files);
            assert(all.contains(t));
            let i = all.index_of(t);
            assert(all[i] == t);
        }
        let g = tui::plan::groups(f.selected, f.targets);
        tui::plan::one_group_per_target(f.selected, f.targets);
        lemma_none_left(s, f, g.len() as int);
    }
}

proof fn lemma_none_left(s: AppV, f: FileV, n: int)
    requires
        f.wf(),
        n <= tui::plan::groups(f.selected, f.targets).len(),
        forall|t: Oid| #[trigger]
            tui::aims(f.selected, f.targets, f.selected.len() as int).contains(t) ==> t
                == tui::phantom(),
    ensures
        s.folds_of(f, n).len() == 0,
    decreases n,
{
    if n > 0 {
        lemma_none_left(s, f, n - 1);
        let g = tui::plan::groups(f.selected, f.targets);
        tui::plan::one_group_per_target(f.selected, f.targets);
        assert(g[n - 1].0 == g[n - 1].0);
        assert(tui::aims(f.selected, f.targets, f.selected.len() as int).contains(g[n - 1].0));
    }
}

// ── the help ────────────────────────────────────────────────────────────────

/// Every row of the help fits its popup, in every state: it is not wrapped, so a longer
/// one would lose its end. The line that is always on screen fits eighty columns.
pub proof fn the_help_fits(s: AppV)
    ensures
        view::spec_hint().len() <= 80,
        s.helped().lead.len() <= 62,
        forall|i: int|
            0 <= i < s.helped().rows.len() ==> (#[trigger] s.helped().rows[i]).0.len() <= 5
                && s.helped().rows[i].1.len() <= 55,
{
    reveal_strlit("");
    reveal_strlit("p");
    reveal_strlit("preview — what would change, nothing written");
    reveal_strlit("⏎");
    reveal_strlit("apply (press twice; the first press reports scope)");
    reveal_strlit("u");
    reveal_strlit("undo the last transplant");
    reveal_strlit("c / i");
    reveal_strlit("conflict rule · ignore whitespace");
    reveal_strlit("Esc");
    reveal_strlit("step back · q quit");
    reveal_strlit("+ new commit here");
    reveal_strlit("A destination that does not exist yet — split hunks into it.");
    reveal_strlit("t");
    reveal_strlit("route the picked hunks into a new commit");
    reveal_strlit("name it and apply the split");
    reveal_strlit("↑↓");
    reveal_strlit("back down to the real commits");
    reveal_strlit("Commits");
    reveal_strlit("The stack, newest first — edit one, or send hunks to it.");
    reveal_strlit("e");
    reveal_strlit("open this commit's hunks, to take some out");
    reveal_strlit("w");
    reveal_strlit("open your UNSTAGED work as hunks to route");
    reveal_strlit("make this commit the destination");
    reveal_strlit("f");
    reveal_strlit("send every picked hunk here at once");
    reveal_strlit("[ ]");
    reveal_strlit("move this commit earlier / later");
    reveal_strlit("d");
    reveal_strlit("drop this commit");
    reveal_strlit("s");
    reveal_strlit("squash it into the one below");
    reveal_strlit("r");
    reveal_strlit("reword its message");
    reveal_strlit("Files");
    reveal_strlit("Whole-file move: pick a file, then a commit to move it to.");
    reveal_strlit("pick a file");
    reveal_strlit("/");
    reveal_strlit("filter the list — applies as you type");
    reveal_strlit("Tab");
    reveal_strlit("cross to the commit list");
    reveal_strlit("move the file into the commit there");
    reveal_strlit("m");
    reveal_strlit("back to hunks");
    reveal_strlit("Staged hunks");
    reveal_strlit("Your uncommitted work — route each hunk into the stack.");
    reveal_strlit("Spc");
    reveal_strlit("pick / unpick this hunk");
    reveal_strlit("a");
    reveal_strlit("accept the target git blame inferred");
    reveal_strlit("cross to the commits, then t to send them");
    reveal_strlit("switch to whole-file move");
    reveal_strlit("Unstaged hunks");
    reveal_strlit("Work you never staged — fold it straight into the stack.");
    reveal_strlit("back to your staged work");
    reveal_strlit("Commit hunks");
    reveal_strlit("Hunks taken OUT of this commit — send them elsewhere.");
    reveal_strlit("on `+ new commit here` splits them off instead");
    reveal_strlit("close this commit, back to your staged work");
    reveal_strlit("↑↓ nav · ←→ pane · ⏎ apply · ? help · q quit");
}

proof fn lemma_logged(shape: ShapeV, path: Seq<char>, c: Oid)
    ensures
        undo::ours("transplant: move "@ + path + " to "@ + c.spec_short()),
        undo::ours("transplant: tui fold"@),
        undo::ours("transplant: tui split "@ + c.spec_short()),
        undo::ours("transplant: tui split"@),
        undo::ours("transplant: tui commit"@),
        undo::ours("transplant: reword "@ + c.spec_short()),
        shape != ShapeV::Unchanged ==> undo::ours(shape.message()),
{
    let moved = "transplant: move "@ + path + " to "@ + c.spec_short();
    assert(undo::ours(moved)) by {
        reveal_strlit("transplant: move ");
        undo::lemma_ours(moved);
    }
    assert(undo::ours("transplant: tui fold"@)) by {
        reveal_strlit("transplant: tui fold");
        undo::lemma_ours("transplant: tui fold"@);
    }
    assert(undo::ours("transplant: tui split "@ + c.spec_short())) by {
        reveal_strlit("transplant: tui split ");
        undo::lemma_ours("transplant: tui split "@ + c.spec_short());
    }
    assert(undo::ours("transplant: tui split"@)) by {
        reveal_strlit("transplant: tui split");
        undo::lemma_ours("transplant: tui split"@);
    }
    assert(undo::ours("transplant: tui commit"@)) by {
        reveal_strlit("transplant: tui commit");
        undo::lemma_ours("transplant: tui commit"@);
    }
    assert(undo::ours("transplant: reword "@ + c.spec_short())) by {
        reveal_strlit("transplant: reword ");
        undo::lemma_ours("transplant: reword "@ + c.spec_short());
    }
    if shape != ShapeV::Unchanged {
        assert(undo::ours(shape.message())) by {
            reveal_strlit("transplant: tui reorder");
            reveal_strlit("transplant: drop ");
            reveal_strlit("transplant: squash ");
            undo::lemma_ours(shape.message());
        }
    }
}

/// A rewrite or a move of the branch that is wanted is logged as the tool's own.
pub open spec fn logged(w: WantV) -> bool {
    match w {
        WantV::Rewrite(r) => undo::ours(r.message),
        WantV::Promote(p) => undo::ours(p.message),
        _ => true,
    }
}

/// A rewrite or a move of the branch that is wanted checks nothing out.
pub open spec fn moves_only_refs(w: WantV) -> bool {
    match w {
        WantV::Rewrite(r) => !r.sync,
        WantV::Promote(p) => !p.sync,
        _ => true,
    }
}

impl JobV {
    /// A file is on its way.
    pub open spec fn moves_a_file(self) -> bool {
        self is Move || self is MoveAt
    }
}

/// What holds of a step of the job.
spec fn keeps_to(s: AppV, job: JobV, next: flow::NextV) -> bool {
    &&& job.goal() != Some(Goal::Apply) ==> {
        &&& next.want.harmless()
        &&& next.job.goal() == job.goal() || next.job == JobV::Idle
        &&& !s.applied ==> !next.app.applied
    }
    &&& !job.moves_a_file() ==> moves_only_refs(next.want) && !next.job.moves_a_file()
    &&& (job is ShapeFrom ==> s.shape != ShapeV::Unchanged) ==> logged(next.want)
}

proof fn lemma_shaping(s: AppV, goal: Goal, news: NewsV)
    ensures
        keeps_to(s, JobV::Shape(goal), s.shaping(goal, news)),
{
    reveal(AppV::shaping);
}

proof fn lemma_shaping_from(s: AppV, goal: Goal, p: ShapedV, news: NewsV)
    ensures
        keeps_to(s, JobV::ShapeFrom(goal, p), s.shaping_from(goal, p, news)),
{
    reveal(AppV::shaping_from);
    lemma_logged(s.shape, Seq::empty(), s.head);
}

proof fn lemma_moving(s: AppV, goal: Goal, path: Seq<char>, target: Oid, news: NewsV)
    ensures
        keeps_to(s, JobV::Move { goal, path, target }, s.moving(goal, path, target, news)),
{
    reveal(AppV::moving);
    lemma_logged(s.shape, path, target);
}

proof fn lemma_moving_at(s: AppV, path: Seq<char>, target: Oid, on: RequestV, news: NewsV)
    ensures
        keeps_to(s, JobV::MoveAt { path, target, on }, s.moving_at(path, target, on, news)),
{
    reveal(AppV::moving_at);
    lemma_logged(s.shape, path, on.rev);
}

proof fn lemma_folding(s: AppV, goal: Goal, news: NewsV)
    ensures
        keeps_to(s, JobV::Fold(goal), s.folding(goal, news)),
{
    reveal(AppV::folding);
    lemma_logged(s.shape, Seq::empty(), s.head);
}

proof fn lemma_folding_from(s: AppV, goal: Goal, r: RecipeV, news: NewsV)
    ensures
        keeps_to(s, JobV::FoldFrom(goal, r), s.folding_from(goal, r, news)),
{
    reveal(AppV::folding_from);
    lemma_logged(s.shape, Seq::empty(), s.head);
}

proof fn lemma_splitting(s: AppV, goal: Goal, named: Oid, rev: Oid, news: NewsV)
    ensures
        keeps_to(s, JobV::Split { goal, named, rev }, s.splitting(goal, named, rev, news)),
{
    reveal(AppV::splitting);
}

proof fn lemma_splitting_at(s: AppV, goal: Goal, named: Oid, rev: Oid, first: Oid, news: NewsV)
    ensures
        keeps_to(
            s,
            JobV::SplitAt { goal, named, rev, first },
            s.splitting_at(goal, named, rev, first, news),
        ),
{
    reveal(AppV::splitting_at);
}

proof fn lemma_splitting_from(
    s: AppV,
    goal: Goal,
    named: Oid,
    rev: Oid,
    first: Oid,
    plan: ShapedV,
    news: NewsV,
)
    ensures
        keeps_to(
            s,
            JobV::SplitFrom { goal, named, rev, first, plan },
            s.splitting_from(goal, named, rev, first, plan, news),
        ),
{
    reveal(AppV::splitting_from);
    lemma_logged(s.shape, Seq::empty(), named);
}

proof fn lemma_tipping(s: AppV, goal: Goal, news: NewsV)
    ensures
        keeps_to(s, JobV::Tip(goal), s.tipping(goal, news)),
{
    reveal(AppV::tipping);
    lemma_logged(s.shape, Seq::empty(), s.head);
}

proof fn lemma_tipping_at(s: AppV, tip: Oid, news: NewsV)
    ensures
        keeps_to(s, JobV::TipAt(tip), s.tipping_at(tip, news)),
{
    reveal(AppV::tipping_at);
}

proof fn lemma_rewording_on(s: AppV, rev: Oid, text: Seq<char>, news: NewsV)
    ensures
        keeps_to(s, JobV::Reword { rev, text }, s.rewording_on(rev, text, news)),
{
    reveal(AppV::rewording_on);
}

proof fn lemma_rewording_at(s: AppV, rev: Oid, text: Seq<char>, on: RequestV, news: NewsV)
    ensures
        keeps_to(s, JobV::RewordAt { rev, text, on }, s.rewording_at(rev, text, on, news)),
{
    reveal(AppV::rewording_at);
    lemma_logged(s.shape, Seq::empty(), on.rev);
}

proof fn lemma_step(s: AppV, job: JobV, news: NewsV)
    ensures
        keeps_to(s, job, s.went_on(job, news)),
{
    match job {
        JobV::Idle => {},
        JobV::Shape(goal) => lemma_shaping(s, goal, news),
        JobV::ShapeFrom(goal, p) => lemma_shaping_from(s, goal, p, news),
        JobV::Move { goal, path, target } => lemma_moving(s, goal, path, target, news),
        JobV::MoveAt { path, target, on } => lemma_moving_at(s, path, target, on, news),
        JobV::Fold(goal) => lemma_folding(s, goal, news),
        JobV::FoldFrom(goal, r) => lemma_folding_from(s, goal, r, news),
        JobV::Split { goal, named, rev } => lemma_splitting(s, goal, named, rev, news),
        JobV::SplitAt { goal, named, rev, first } => lemma_splitting_at(s, goal, named, rev, first, news),
        JobV::SplitFrom { goal, named, rev, first, plan } => lemma_splitting_from(s, goal, named, rev, first, plan, news),
        JobV::Tip(goal) => lemma_tipping(s, goal, news),
        JobV::TipAt(tip) => lemma_tipping_at(s, tip, news),
        JobV::Reword { rev, text } => lemma_rewording_on(s, rev, text, news),
        JobV::RewordAt { rev, text, on } => lemma_rewording_at(s, rev, text, on, news),
    }
}

/// What is not applied stays so to its end, and never moves a ref, nor writes worktree
/// or index, whatever comes back.
pub proof fn what_is_not_applied_writes_nothing(s: AppV, job: JobV, news: NewsV)
    requires
        job.goal() != Some(Goal::Apply),
    ensures
        s.went_on(job, news).want.harmless(),
        s.went_on(job, news).job.goal() == job.goal() || s.went_on(job, news).job == JobV::Idle,
        !s.applied ==> !s.went_on(job, news).app.applied,
{
    lemma_step(s, job, news);
}

/// Nothing but a file's move ever checks anything out: hunks, splits, new commits,
/// rewords and shape edits move the branch and leave the worktree alone.
pub proof fn the_worktree_is_left_alone(s: AppV, job: JobV, news: NewsV)
    requires
        !job.moves_a_file(),
    ensures
        moves_only_refs(s.went_on(job, news).want),
        !s.went_on(job, news).job.moves_a_file(),
{
    lemma_step(s, job, news);
}

/// Whatever the screen has written is logged as the tool's own, so that `u` finds it.
pub proof fn every_apply_can_be_undone(s: AppV, job: JobV, news: NewsV)
    requires
        job is ShapeFrom ==> s.shape != ShapeV::Unchanged,
    ensures
        logged(s.went_on(job, news).want),
{
    lemma_step(s, job, news);
}

/// The path is offered, or named among those that cannot be folded.
pub open spec fn accounted(found: FoundV, path: Seq<char>) -> bool {
    (exists|j: int| 0 <= j < found.files.len() && (#[trigger] found.files[j]).path == path) || (
    exists|j: int| 0 <= j < found.skipped.len() && #[trigger] found.skipped[j] == path)
}

proof fn lemma_accounted_stays(
    found: FoundV,
    looking: Looking,
    d: DeltaV,
    diff: Option<Seq<HunkV>>,
    window: Seq<Oid>,
    path: Seq<char>,
)
    requires
        accounted(found, path),
    ensures
        accounted(source::found_one(found, looking, d, diff, window), path),
{
    let next = source::found_one(found, looking, d, diff, window);
    if exists|j: int| 0 <= j < found.files.len() && (#[trigger] found.files[j]).path == path {
        let j = choose|j: int|
            0 <= j < found.files.len() && (#[trigger] found.files[j]).path == path;
        assert(next.files[j] == found.files[j]);
    } else {
        let j = choose|j: int|
            0 <= j < found.skipped.len() && #[trigger] found.skipped[j] == path;
        assert(next.skipped[j] == found.skipped[j]);
    }
}

/// No change is passed over in silence: a path whose content is changed, staged, on
/// disk or by a commit, and of which the diff can be made, is offered hunk by hunk, or
/// it is named among those that cannot be folded. So is one that was added or deleted
/// as a whole, unless a commit did that.
pub proof fn no_change_is_passed_over_in_silence(
    looking: Looking,
    deltas: Seq<DeltaV>,
    diffs: Seq<Option<Seq<HunkV>>>,
    window: Seq<Oid>,
    n: int,
    i: int,
)
    requires
        0 <= i < n,
        deltas[i].path is Some,
        looking == Looking::Commit ==> looking.spec_takes(deltas[i].kind),
        looking.spec_takes(deltas[i].kind) ==> diffs[i] is Some && deltas[i].old != deltas[i].new,
    ensures
        accounted(source::found_in(looking, deltas, diffs, window, n), deltas[i].path->0),
    decreases n,
{
    let before = source::found_in(looking, deltas, diffs, window, n - 1);
    let path = deltas[i].path->0;
    let (d, diff) = (deltas[n - 1], diffs[n - 1]);
    let next = source::found_one(before, looking, d, diff, window);
    if i == n - 1 {
        if next.files.len() > before.files.len() {
            assert(next.files[before.files.len() as int].path == path);
        } else {
            assert(next.skipped[before.skipped.len() as int] == path);
        }
    } else {
        no_change_is_passed_over_in_silence(looking, deltas, diffs, window, n - 1, i);
        lemma_accounted_stays(before, looking, d, diff, window, path);
    }
}

} // verus!
