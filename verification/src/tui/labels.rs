//! What the screen says: where the picked hunks go, and every label and line that
//! is made of it.

use crate::oid::Oid;
use crate::text;
use crate::tui;
use crate::tui::{App, AppV, CommitRow, FileV, RowV, Shape, ShapeV, Source};
use vstd::prelude::*;

verus! {

// ── the routing ─────────────────────────────────────────────────────────────

/// The different targets, each where it first occurs.
pub open spec fn firsts(r: Seq<Oid>) -> Seq<Oid>
    decreases r.len(),
{
    if r.len() == 0 {
        Seq::empty()
    } else if firsts(r.drop_last()).contains(r.last()) {
        firsts(r.drop_last())
    } else {
        firsts(r.drop_last()).push(r.last())
    }
}

/// How often `t` occurs.
pub open spec fn times(r: Seq<Oid>, t: Oid) -> nat
    decreases r.len(),
{
    if r.len() == 0 {
        0
    } else {
        times(r.drop_last(), t) + if r.last() == t {
            1nat
        } else {
            0nat
        }
    }
}

/// How many hunks go to each destination.
pub open spec fn tally(r: Seq<Oid>) -> Seq<(Oid, nat)> {
    Seq::new(firsts(r).len(), |i: int| (firsts(r)[i], times(r, firsts(r)[i])))
}

/// Counted destinations by their contents.
pub open spec fn counted(v: Seq<(Oid, usize)>) -> Seq<(Oid, nat)> {
    v.map_values(|e: (Oid, usize)| (e.0, e.1 as nat))
}

/// Those of the first `n` whose row is `want`.
pub open spec fn at_row(
    v: Seq<(Oid, nat)>,
    commits: Seq<RowV>,
    want: Option<int>,
    n: int,
) -> Seq<(Oid, nat)>
    decreases n,
{
    if n <= 0 {
        Seq::empty()
    } else {
        let front = at_row(v, commits, want, n - 1);
        if tui::row_of(commits, v[n - 1].0, 0) == want {
            front.push(v[n - 1])
        } else {
            front
        }
    }
}

/// Those in the first `n` rows, by row.
pub open spec fn by_row(v: Seq<(Oid, nat)>, commits: Seq<RowV>, n: int) -> Seq<(Oid, nat)>
    decreases n,
{
    if n <= 0 {
        Seq::empty()
    } else {
        by_row(v, commits, n - 1) + at_row(v, commits, Some(n - 1), v.len() as int)
    }
}

/// Newest destination first; those without a row come last.
pub open spec fn newest_first(v: Seq<(Oid, nat)>, commits: Seq<RowV>) -> Seq<(Oid, nat)> {
    by_row(v, commits, commits.len() as int) + at_row(v, commits, None, v.len() as int)
}

/// One destination, for a line.
pub open spec fn route_text(e: (Oid, nat)) -> Seq<char> {
    text::decimal_of(e.1) + " hunk(s) → "@ + if e.0 == tui::phantom() {
        "+ new commit"@
    } else {
        e.0.spec_short()
    }
}

/// The destinations, for a line each.
pub open spec fn route_texts(v: Seq<(Oid, nat)>) -> Seq<Seq<char>> {
    v.map_values(|e: (Oid, nat)| route_text(e))
}

pub proof fn lemma_tally(r: Seq<Oid>, t: Oid)
    ensures
        firsts(r).contains(t) <==> times(r, t) > 0,
        times(r, t) <= r.len(),
    decreases r.len(),
{
    if r.len() > 0 {
        lemma_tally(r.drop_last(), t);
        let front = firsts(r.drop_last());
        if !front.contains(r.last()) {
            let all = front.push(r.last());
            assert(all[all.len() - 1] == r.last());
            if front.contains(t) {
                let i = choose|i: int| 0 <= i < front.len() && front[i] == t;
                assert(all[i] == t);
            }
        }
    }
}

proof fn lemma_firsts_differ(r: Seq<Oid>, i: int, j: int)
    requires
        0 <= i < j < firsts(r).len(),
    ensures
        firsts(r)[i] != firsts(r)[j],
    decreases r.len(),
{
    let front = firsts(r.drop_last());
    if front.contains(r.last()) || j < front.len() {
        lemma_firsts_differ(r.drop_last(), i, j);
    } else {
        assert(front.contains(front[i]));
    }
}

impl App {
    /// How many picked hunks land on each destination — the WHOLE routing, not just
    /// the cursor hunk's.
    pub fn routing(&self) -> (out: Vec<(Oid, usize)>)
        requires
            self@.wf(),
        ensures
            counted(out@) == tally(tui::routes_of(self@.files)),
    {
        let r = self.routes();
        let mut out: Vec<(Oid, usize)> = Vec::new();
        let mut i: usize = 0;
        assert(counted(out@) =~= tally(r@.take(0)));
        while i < r.len()
            invariant
                r@ == tui::routes_of(self@.files),
                0 <= i <= r@.len(),
                counted(out@) == tally(r@.take(i as int)),
            decreases r@.len() - i,
        {
            let t = r[i];
            let ghost done = r@.take(i as int);
            let ghost more = r@.take(i + 1);
            let ghost before = out@;
            proof {
                assert(more.drop_last() =~= done);
                assert(more.last() == t);
                lemma_tally(done, t);
                assert(before.len() == firsts(done).len()) by {
                    assert(counted(before).len() == tally(done).len());
                }
                assert forall|j: int| 0 <= j < before.len() implies #[trigger] before[j].0
                    == firsts(done)[j] && before[j].1 == times(done, firsts(done)[j]) by {
                    assert(counted(before)[j] == (before[j].0, before[j].1 as nat));
                    assert(tally(done)[j] == (firsts(done)[j], times(done, firsts(done)[j])));
                }
            }
            let mut j: usize = 0;
            while j < out.len() && out[j].0 != t
                invariant
                    0 <= j <= out@.len(),
                    forall|k: int| 0 <= k < j ==> (#[trigger] out@[k]).0 != t,
                decreases out@.len() - j,
            {
                j += 1;
            }
            if j < out.len() {
                proof {
                    assert(out@[j as int].0 == firsts(done)[j as int]);
                    lemma_tally(done, t);
                    assert(firsts(done).contains(t));
                }
                let n: usize = out[j].1;
                let len: usize = r.len();
                assert(n <= i < len);
                out[j] = (t, n + 1);
                proof {
                    assert(firsts(more) == firsts(done));
                    assert forall|k: int| 0 <= k < out@.len() implies counted(out@)[k] == tally(
                        more,
                    )[k] by {
                        if k < j {
                            lemma_firsts_differ(done, k, j as int);
                        } else if k > j {
                            lemma_firsts_differ(done, j as int, k);
                        }
                        assert(before[k].0 == firsts(done)[k]);
                    }
                    assert(counted(out@) =~= tally(more));
                }
            } else {
                proof {
                    assert forall|k: int| 0 <= k < firsts(done).len() implies firsts(done)[k]
                        != t by {
                        assert(out@[k].0 == firsts(done)[k]);
                    }
                    assert(!firsts(done).contains(t));
                }
                out.push((t, 1));
                proof {
                    assert(firsts(more) == firsts(done).push(t));
                    assert forall|k: int| 0 <= k < out@.len() implies counted(out@)[k] == tally(
                        more,
                    )[k] by {
                        if k < before.len() {
                            assert(before[k].0 == firsts(done)[k]);
                        }
                    }
                    assert(counted(out@) =~= tally(more));
                }
            }
            i += 1;
        }
        assert(r@.take(i as int) =~= r@);
        out
    }

    /// The routing as one line, newest destination first, so a preview says WHERE
    /// things go and not just that it is clean.
    pub fn routing_summary(&self) -> (s: String)
        requires
            self@.wf(),
        ensures
            s@ == self@.routing_summary(),
    {
        let v = self.routing();
        let ghost vv = counted(v@);
        let ghost cs = self@.commits;
        let mut parts: Vec<String> = Vec::new();
        let mut i: usize = 0;
        assert(text::texts(parts@) =~= route_texts(by_row(vv, cs, 0)));
        while i < self.commits.len()
            invariant
                vv == counted(v@),
                cs == tui::rows_view(self.commits@),
                0 <= i <= self.commits@.len(),
                text::texts(parts@) == route_texts(by_row(vv, cs, i as int)),
            decreases self.commits@.len() - i,
        {
            append_row(&mut parts, &v, &self.commits, Some(i));
            i += 1;
            assert(route_texts(by_row(vv, cs, i as int)) =~= route_texts(by_row(vv, cs, i - 1))
                + route_texts(at_row(vv, cs, Some(i - 1), vv.len() as int)));
        }
        append_row(&mut parts, &v, &self.commits, None);
        assert(text::texts(parts@) =~= route_texts(newest_first(vv, cs)));
        text::join(&parts, " · ")
    }
}

/// Append the lines of those destinations whose row is `want`.
fn append_row(
    parts: &mut Vec<String>,
    v: &Vec<(Oid, usize)>,
    commits: &Vec<CommitRow>,
    want: Option<usize>,
)
    ensures
        text::texts(final(parts)@) == text::texts(old(parts)@) + route_texts(
            at_row(
                counted(v@),
                tui::rows_view(commits@),
                match want {
                    Some(i) => Some(i as int),
                    None => None,
                },
                v@.len() as int,
            ),
        ),
{
    let ghost vv = counted(v@);
    let ghost cs = tui::rows_view(commits@);
    let ghost w: Option<int> = match want {
        Some(i) => Some(i as int),
        None => None,
    };
    let ghost start = text::texts(parts@);
    let mut j: usize = 0;
    assert(start + route_texts(at_row(vv, cs, w, 0)) =~= start);
    while j < v.len()
        invariant
            vv == counted(v@),
            cs == tui::rows_view(commits@),
            w == (match want {
                Some(i) => Some(i as int),
                None => None,
            }),
            0 <= j <= v@.len(),
            text::texts(parts@) == start + route_texts(at_row(vv, cs, w, j as int)),
        decreases v@.len() - j,
    {
        let (o, n) = v[j];
        assert(vv[j as int] == (o, n as nat));
        let here = match (tui::row(commits, o), want) {
            (Some(a), Some(b)) => a == b,
            (None, None) => true,
            _ => false,
        };
        if here {
            let mut s = text::decimal(n).concat(" hunk(s) → ");
            if o == tui::phantom() {
                s.append("+ new commit");
            } else {
                let short = o.short();
                s.append(&short);
            }
            let ghost before = text::texts(parts@);
            parts.push(s);
            proof {
                let at = at_row(vv, cs, w, j as int);
                assert(s@ =~= route_text((o, n as nat)));
                assert(text::texts(parts@) =~= before.push(s@));
                assert(route_texts(at.push((o, n as nat))) =~= route_texts(at).push(s@));
                assert(text::texts(parts@) =~= start + route_texts(at.push((o, n as nat))));
            }
        }
        j += 1;
    }
}

// ── labels ──────────────────────────────────────────────────────────────────

/// How many of the first `n` hunks are selected and sent somewhere that the
/// suggestion did not say.
pub open spec fn hand_routed_in(f: FileV, n: int) -> nat
    decreases n,
{
    if n <= 0 {
        0
    } else {
        hand_routed_in(f, n - 1) + if f.selected[n - 1] && f.targets[n - 1] is Some
            && f.targets[n - 1] != f.inferred[n - 1] {
            1nat
        } else {
            0nat
        }
    }
}

/// The same over all the files.
pub open spec fn hand_routed(files: Seq<FileV>) -> nat
    decreases files.len(),
{
    if files.len() == 0 {
        0
    } else {
        hand_routed(files.drop_last()) + hand_routed_in(
            files.last(),
            files.last().selected.len() as int,
        )
    }
}

/// Those paths that hold the filter.
pub open spec fn narrowed(paths: Seq<Seq<char>>, filter: Seq<char>) -> Seq<Seq<char>>
    decreases paths.len(),
{
    if paths.len() == 0 {
        Seq::empty()
    } else if text::holds(paths.last(), filter) {
        narrowed(paths.drop_last(), filter).push(paths.last())
    } else {
        narrowed(paths.drop_last(), filter)
    }
}

/// The older of two rows.
pub open spec fn older(a: Option<int>, b: Option<int>) -> Option<int> {
    match (a, b) {
        (Some(i), Some(j)) => if i < j {
            b
        } else {
            a
        },
        (None, _) => b,
        _ => a,
    }
}

/// The oldest row among those of the targets.
pub open spec fn oldest_in(commits: Seq<RowV>, r: Seq<Oid>) -> Option<int>
    decreases r.len(),
{
    if r.len() == 0 {
        None
    } else {
        older(oldest_in(commits, r.drop_last()), tui::row_of(commits, r.last(), 0))
    }
}

impl ShapeV {
    /// Human description of the pending shape edit.
    pub open spec fn summary(self) -> Seq<char> {
        match self {
            ShapeV::Unchanged => Seq::empty(),
            ShapeV::Reorder(_) => "reorder"@,
            ShapeV::Drop(o) => "drop "@ + o.spec_short(),
            ShapeV::Squash(o) => "squash "@ + o.spec_short(),
        }
    }

    /// Reflog message for the pending shape edit.
    pub open spec fn message(self) -> Seq<char> {
        match self {
            ShapeV::Unchanged => Seq::empty(),
            ShapeV::Reorder(_) => "transplant: tui reorder"@,
            ShapeV::Drop(o) => "transplant: drop "@ + o.spec_short(),
            ShapeV::Squash(o) => "transplant: squash "@ + o.spec_short(),
        }
    }
}

impl AppV {
    /// See [`App::routing_summary`].
    pub open spec fn routing_summary(self) -> Seq<char> {
        text::joined(
            route_texts(newest_first(tally(tui::routes_of(self.files)), self.commits)),
            " · "@,
        )
    }

    /// The file rows on screen.
    pub open spec fn visible_files(self) -> Seq<Seq<char>> {
        narrowed(self.move_files, self.filter)
    }

    /// The file under the cursor of the file list.
    pub open spec fn cursor_file(self) -> Option<Seq<char>> {
        if self.move_cursor < self.visible_files().len() {
            Some(self.visible_files()[self.move_cursor as int])
        } else {
            None
        }
    }

    /// Target commit highlighted in the commit list: the hunk's target, or where the
    /// file goes.
    pub open spec fn active_target(self) -> Option<Oid> {
        if self.source == Source::Files {
            self.move_target
        } else {
            match self.cursor_hunk() {
                Some((f, h)) => self.files[f as int].targets[h as int],
                None => None,
            }
        }
    }

    /// Work that quitting would throw away.
    pub open spec fn unapplied(self) -> Option<Seq<char>> {
        if self.shape != ShapeV::Unchanged {
            Some(self.shape.summary())
        } else if self.move_target is Some {
            Some("a file move destination"@)
        } else if hand_routed(self.files) > 0 {
            Some(text::decimal_of(hand_routed(self.files)) + " hand-routed hunk(s)"@)
        } else {
            None
        }
    }

    /// Conflict rule and whitespace mode; empty when both are at their default.
    pub open spec fn badges(self) -> Seq<char> {
        (match self.opts.favor {
            Some(f) => " · rule:"@ + tui::favor_word(f),
            None => Seq::empty(),
        }) + (if self.opts.ignore_ws {
            " · ignore-ws"@
        } else {
            Seq::empty()
        })
    }

    /// Summary of a commit.
    pub open spec fn summary_of(self, c: Oid) -> Seq<char> {
        match tui::row_of(self.commits, c, 0) {
            Some(i) => self.commits[i].summary,
            None => Seq::empty(),
        }
    }

    /// A one-line label for a target commit.
    pub open spec fn target_label(self, target: Option<Oid>) -> Seq<char> {
        match target {
            Some(o) => if o == tui::phantom() {
                "+ new commit"@
            } else {
                o.spec_short() + " "@ + tui::truncated(self.summary_of(o), 28)
            },
            None => if self.source is Commit {
                "(pick a destination)"@
            } else {
                "(no home)"@
            },
        }
    }

    /// Short name of the current hunk source.
    pub open spec fn source_label(self) -> Seq<char> {
        match self.source {
            Source::Staged => "staged"@,
            Source::Unstaged => "unstaged"@,
            Source::Commit(o) => "from "@ + o.spec_short(),
            Source::Files => "files"@,
        }
    }

    /// The line that is always on screen.
    pub open spec fn context_line(self) -> Seq<char> {
        (if self.source == Source::Files {
            "move "@ + (match self.cursor_file() {
                Some(p) => p,
                None => "-"@,
            }) + " → "@ + self.target_label(self.move_target)
        } else {
            match self.cursor_hunk() {
                Some((f, h)) => self.source_label() + " · hunk "@ + text::decimal_of(
                    (self.hunk_cursor + 1) as nat,
                ) + "/"@ + text::decimal_of(self.flat.len()) + " · "@ + text::decimal_of(
                    tui::picked_of(self.files),
                ) + " picked · "@ + (if self.files[f as int].selected[h as int] {
                    "[x]"@
                } else {
                    "[ ]"@
                }) + " "@ + tui::truncated(self.files[f as int].path, 20) + " → "@
                    + self.target_label(self.files[f as int].targets[h as int]),
                None => self.source_label() + " · no hunks"@,
            }
        }) + self.badges()
    }

    /// Row of the oldest commit this selection touches. The source commit counts
    /// whenever anything is selected: a forward move also reverts there, and a split
    /// rewrites it.
    pub open spec fn oldest_touched(self) -> Option<int> {
        let oldest = oldest_in(self.commits, tui::routes_of(self.files));
        match self.source {
            Source::Commit(src) => if oldest is Some || self.splits() {
                older(oldest, tui::row_of(self.commits, src, 0))
            } else {
                oldest
            },
            _ => oldest,
        }
    }

    /// How many commits a rewrite would touch: from the oldest EDITED commit to the
    /// tip.
    pub open spec fn rewrite_span(self) -> int {
        match self.oldest_touched() {
            Some(i) => i + 1,
            None => 0,
        }
    }
}

proof fn lemma_narrowed(paths: Seq<Seq<char>>)
    ensures
        narrowed(paths, Seq::empty()) == paths,
    decreases paths.len(),
{
    if paths.len() > 0 {
        lemma_narrowed(paths.drop_last());
        let p = paths.last();
        assert(p.subrange(0, 0) =~= Seq::<char>::empty());
        assert(text::occurs_at(p, Seq::empty(), 0));
        assert(paths.drop_last().push(p) =~= paths);
    }
}

/// An empty filter shows every file.
pub proof fn no_filter_shows_everything(app: AppV)
    requires
        app.filter.len() == 0,
    ensures
        app.visible_files() == app.move_files,
{
    assert(app.filter =~= Seq::empty());
    lemma_narrowed(app.move_files);
}

impl App {
    /// The file rows on screen: the tracked files narrowed by the filter. The file
    /// cursor indexes THIS list, never the whole one.
    pub fn visible_files(&self) -> (v: Vec<String>)
        ensures
            text::texts(v@) == self@.visible_files(),
    {
        let ghost all = self@.move_files;
        let mut v: Vec<String> = Vec::new();
        let mut i: usize = 0;
        assert(text::texts(v@) =~= narrowed(all.take(0), self@.filter));
        while i < self.move_files.len()
            invariant
                all == text::texts(self.move_files@),
                0 <= i <= self.move_files@.len(),
                text::texts(v@) == narrowed(all.take(i as int), self.filter@),
            decreases self.move_files@.len() - i,
        {
            assert(all.take(i + 1).drop_last() =~= all.take(i as int));
            assert(all.take(i + 1).last() == self.move_files@[i as int]@);
            if text::contains(&self.move_files[i], &self.filter) {
                let ghost before = text::texts(v@);
                v.push(self.move_files[i].clone());
                assert(text::texts(v@) =~= before.push(self.move_files@[i as int]@));
            }
            i += 1;
        }
        assert(all.take(i as int) =~= all);
        v
    }

    /// The file under the cursor of the file list.
    pub fn cursor_file(&self) -> (r: Option<String>)
        ensures
            match r {
                Some(p) => self@.cursor_file() == Some(p@),
                None => self@.cursor_file() is None,
            },
    {
        let v = self.visible_files();
        if self.move_cursor < v.len() {
            assert(text::texts(v@)[self.move_cursor as int] == v@[self.move_cursor as int]@);
            Some(v[self.move_cursor].clone())
        } else {
            None
        }
    }

    /// The file and hunk under the hunk cursor.
    pub fn cursor_hunk(&self) -> (r: Option<(usize, usize)>)
        ensures
            r == self@.cursor_hunk(),
    {
        if self.hunk_cursor < self.flat.len() {
            Some(self.flat[self.hunk_cursor])
        } else {
            None
        }
    }

    /// Target commit highlighted in the commit list.
    pub fn active_target(&self) -> (t: Option<Oid>)
        requires
            self@.wf(),
        ensures
            t == self@.active_target(),
    {
        if self.source == Source::Files {
            return self.move_target;
        }
        match self.cursor_hunk() {
            Some((f, h)) => {
                assert(self@.files[f as int] == self.files@[f as int]@);
                self.files[f].targets[h]
            },
            None => None,
        }
    }

    /// Human description of the pending shape edit.
    pub fn shape_summary(&self) -> (s: String)
        ensures
            s@ == self@.shape.summary(),
    {
        match &self.shape {
            Shape::Unchanged => String::new(),
            Shape::Reorder(_) => "reorder".to_owned(),
            Shape::Drop(o) => "drop ".to_owned().concat(&o.short()),
            Shape::Squash(o) => "squash ".to_owned().concat(&o.short()),
        }
    }

    /// Reflog message for the pending shape edit.
    pub fn shape_msg(&self) -> (s: String)
        ensures
            s@ == self@.shape.message(),
    {
        match &self.shape {
            Shape::Unchanged => String::new(),
            Shape::Reorder(_) => "transplant: tui reorder".to_owned(),
            Shape::Drop(o) => "transplant: drop ".to_owned().concat(&o.short()),
            Shape::Squash(o) => "transplant: squash ".to_owned().concat(&o.short()),
        }
    }

    /// How many picked hunks go where the suggestion did not say.
    fn hand_routed(&self) -> (n: usize)
        requires
            self@.wf(),
        ensures
            n == hand_routed(self@.files),
    {
        let ghost fs = self@.files;
        let mut n: usize = 0;
        let mut i: usize = 0;
        assert(fs.take(0) =~= Seq::empty());
        while i < self.files.len()
            invariant
                fs == tui::files_view(self.files@),
                forall|j: int| 0 <= j < fs.len() ==> (#[trigger] fs[j]).wf(),
                tui::selectable(fs) <= usize::MAX,
                0 <= i <= self.files@.len(),
                n == hand_routed(fs.take(i as int)),
                n <= tui::selectable(fs.take(i as int)),
            decreases self.files@.len() - i,
        {
            let f = &self.files[i];
            let ghost fv = fs[i as int];
            assert(fv == f@ && fv.wf());
            assert(fs.take(i + 1).drop_last() =~= fs.take(i as int));
            assert(fs.take(i + 1).last() == fv);
            proof {
                tui::lemma_selectable(fs, i + 1);
            }
            let mut m: usize = 0;
            let mut j: usize = 0;
            while j < f.selected.len()
                invariant
                    fv == f@,
                    fv.wf(),
                    0 <= j <= f.selected@.len(),
                    m == hand_routed_in(fv, j as int),
                    m <= j,
                decreases f.selected@.len() - j,
            {
                if f.selected[j] {
                    let differs = match (f.targets[j], f.inferred[j]) {
                        (Some(a), Some(b)) => a != b,
                        (Some(_), None) => true,
                        (None, _) => false,
                    };
                    if differs {
                        m += 1;
                    }
                }
                j += 1;
            }
            n += m;
            i += 1;
        }
        assert(fs.take(i as int) =~= fs);
        n
    }

    /// Work that `q` would throw away, described for the confirm. A pending shape
    /// edit, a move destination, or hunks routed somewhere inference did not put
    /// them. A default absorb is deliberately NOT work: opening the screen, looking,
    /// and pressing `q` must stay instant.
    pub fn unapplied(&self) -> (r: Option<String>)
        requires
            self@.wf(),
        ensures
            match r {
                Some(s) => self@.unapplied() == Some(s@),
                None => self@.unapplied() is None,
            },
    {
        match &self.shape {
            Shape::Unchanged => {},
            _ => {
                return Some(self.shape_summary());
            },
        }
        if self.move_target.is_some() {
            return Some("a file move destination".to_owned());
        }
        let n = self.hand_routed();
        if n > 0 {
            Some(text::decimal(n).concat(" hand-routed hunk(s)"))
        } else {
            None
        }
    }

    /// Conflict rule and whitespace mode, as a sticky badge for the context line. A
    /// merge rule you cannot see is the dangerous state: it decides what a conflict
    /// silently becomes.
    pub fn badges(&self) -> (s: String)
        ensures
            s@ == self@.badges(),
    {
        let mut s = String::new();
        if let Some(f) = self.opts.favor {
            s.append(" · rule:");
            s.append(tui::favor_name(f));
        }
        if self.opts.ignore_ws {
            s.append(" · ignore-ws");
        }
        assert(s@ =~= self@.badges());
        s
    }

    /// Summary of a commit, for target labels.
    pub fn summary_of(&self, oid: Oid) -> (s: String)
        ensures
            s@ == self@.summary_of(oid),
    {
        match tui::row(&self.commits, oid) {
            Some(i) => {
                assert(self@.commits[i as int] == self.commits@[i as int]@);
                self.commits[i].summary.clone()
            },
            None => String::new(),
        }
    }

    /// A one-line label for a target commit: `a1b2c3d4 add parser`.
    pub fn target_label(&self, target: Option<Oid>) -> (s: String)
        ensures
            s@ == self@.target_label(target),
    {
        match target {
            Some(o) => if o == tui::phantom() {
                "+ new commit".to_owned()
            } else {
                o.short().concat(" ").concat(&tui::truncate(&self.summary_of(o), 28))
            },
            None => match self.source {
                Source::Commit(_) => "(pick a destination)".to_owned(),
                _ => "(no home)".to_owned(),
            },
        }
    }

    /// Short name of the current hunk source, e.g. `staged` or `from a1b2c3d4`.
    pub fn source_label(&self) -> (s: String)
        ensures
            s@ == self@.source_label(),
    {
        match self.source {
            Source::Staged => "staged".to_owned(),
            Source::Unstaged => "unstaged".to_owned(),
            Source::Commit(o) => "from ".to_owned().concat(&o.short()),
            Source::Files => "files".to_owned(),
        }
    }

    /// The one line that is ALWAYS on screen: which source, how many picked, and
    /// what the cursor is on. It is the only state visible while you look for a
    /// destination, so it carries the source and the count.
    pub fn context_line(&self) -> (s: String)
        requires
            self@.wf(),
        ensures
            s@ == self@.context_line(),
    {
        let body = if self.source == Source::Files {
            let file = match self.cursor_file() {
                Some(p) => p,
                None => "-".to_owned(),
            };
            "move ".to_owned().concat(&file).concat(" → ").concat(
                &self.target_label(self.move_target),
            )
        } else {
            match self.cursor_hunk() {
                Some((f, h)) => {
                    assert(self@.files[f as int] == self.files@[f as int]@);
                    let file = &self.files[f];
                    let len: usize = self.flat.len();
                    assert(self.hunk_cursor < len);
                    self.source_label().concat(" · hunk ").concat(
                        &text::decimal(self.hunk_cursor + 1),
                    ).concat("/").concat(&text::decimal(len)).concat(" · ").concat(
                        &text::decimal(self.picked()),
                    ).concat(" picked · ").concat(
                        if file.selected[h] {
                            "[x]"
                        } else {
                            "[ ]"
                        },
                    ).concat(" ").concat(&tui::truncate(&file.path, 20)).concat(" → ").concat(
                        &self.target_label(file.targets[h]),
                    )
                },
                None => self.source_label().concat(" · no hunks"),
            }
        };
        body.concat(&self.badges())
    }

    /// Row (newest first, so the HIGHEST is oldest) of the oldest commit this
    /// selection touches, or `None` when nothing is selected.
    pub fn oldest_touched(&self) -> (r: Option<usize>)
        requires
            self@.wf(),
        ensures
            match r {
                Some(i) => self@.oldest_touched() == Some(i as int) && i < self@.commits.len(),
                None => self@.oldest_touched() is None,
            },
    {
        let r = self.routes();
        let ghost cs = self@.commits;
        let mut oldest: Option<usize> = None;
        let mut i: usize = 0;
        assert(r@.take(0) =~= Seq::empty());
        while i < r.len()
            invariant
                cs == tui::rows_view(self.commits@),
                0 <= i <= r@.len(),
                match oldest {
                    Some(o) => oldest_in(cs, r@.take(i as int)) == Some(o as int) && o < cs.len(),
                    None => oldest_in(cs, r@.take(i as int)) is None,
                },
            decreases r@.len() - i,
        {
            assert(r@.take(i + 1).drop_last() =~= r@.take(i as int));
            oldest = older_row(oldest, tui::row(&self.commits, r[i]));
            i += 1;
        }
        assert(r@.take(i as int) =~= r@);
        if let Source::Commit(src) = self.source {
            if oldest.is_some() || self.splits() {
                oldest = older_row(oldest, tui::row(&self.commits, src));
            }
        }
        oldest
    }

    /// How many commits a rewrite would touch: from the oldest EDITED commit to the
    /// tip. That counts the source commit — a forward move also reverts the hunk
    /// there, and the source is older than the target in that direction.
    pub fn rewrite_span(&self) -> (n: usize)
        requires
            self@.wf(),
        ensures
            n == self@.rewrite_span(),
            n <= self@.commits.len(),
    {
        match self.oldest_touched() {
            Some(i) => {
                let len: usize = self.commits.len();
                assert(i < len);
                i + 1
            },
            None => 0,
        }
    }

    /// The order the commit list is SHOWING, oldest first — which is exactly the
    /// plan a reorder replays.
    pub fn commit_order(&self) -> (v: Vec<Oid>)
        ensures
            v@ == self@.commit_order(),
    {
        let ghost all = self@.commit_order();
        let n: usize = self.commits.len();
        let mut v: Vec<Oid> = Vec::new();
        let mut i: usize = n;
        while i > 0
            invariant
                n == self.commits@.len(),
                0 <= i <= n,
                v@.len() == n - i,
                forall|j: int|
                    0 <= j < v@.len() ==> (#[trigger] v@[j]) == self.commits@[n - 1 - j].oid,
            decreases i,
        {
            i -= 1;
            v.push(self.commits[i].oid);
        }
        assert(v@ =~= all) by {
            assert forall|j: int| 0 <= j < v@.len() implies v@[j] == all[j] by {
                assert(self@.commits[n - 1 - j] == self.commits@[n - 1 - j]@);
            }
        }
        v
    }
}

impl AppV {
    /// The order the commit list shows, oldest first.
    pub open spec fn commit_order(self) -> Seq<Oid> {
        Seq::new(
            self.commits.len(),
            |i: int| self.commits[self.commits.len() - 1 - i].oid,
        )
    }
}

/// The older of two rows.
fn older_row(a: Option<usize>, b: Option<usize>) -> (r: Option<usize>)
    ensures
        r == a || r == b,
        match (a, b) {
            (Some(i), Some(j)) => r == if i < j {
                b
            } else {
                a
            },
            (None, _) => r == b,
            _ => r == a,
        },
{
    match (a, b) {
        (Some(i), Some(j)) => if i < j {
            b
        } else {
            a
        },
        (None, _) => b,
        _ => a,
    }
}

} // verus!
