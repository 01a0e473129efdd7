//! What is drawn: every pane as lines of toned text. A terminal only has to put them
//! on the screen.

use crate::oid::Oid;
use crate::patch;
use crate::text;
use crate::tui;
use crate::tui::labels;
use crate::tui::{App, AppV, CommitRow, FileEntry, FileV, Pane, RowV, Shape, ShapeV, Source};
use vstd::prelude::*;

verus! {

// ── toned text ──────────────────────────────────────────────────────────────

/// One palette, used everywhere, so the same kind of thing always looks the same.
#[derive(Clone, Copy, PartialEq, Eq, Structural, Debug)]
pub enum Tone {
    Plain,
    /// Chrome: the terminal's own foreground, dimmed.
    Dim,
    Oid,
    Path,
    /// Where something goes.
    Dest,
    Added,
    Removed,
    /// The status line, armed.
    Armed,
    /// The status line, with something that went wrong.
    Bad,
    /// The status line, with something that went well.
    Good,
}

/// A line of toned text.
#[derive(Debug)]
pub struct Line {
    pub spans: Vec<(Tone, String)>,
}

/// A [`Line`] by its contents.
pub type LineV = Seq<(Tone, Seq<char>)>;

impl View for Line {
    type V = LineV;

    open spec fn view(&self) -> LineV {
        self.spans@.map_values(|s: (Tone, String)| (s.0, s.1@))
    }
}

/// Lines by their contents.
pub open spec fn lines_view(v: Seq<Line>) -> Seq<LineV> {
    v.map_values(|l: Line| l@)
}

/// The items of a list by their contents.
pub open spec fn items_view(v: Seq<Vec<Line>>) -> Seq<Seq<LineV>> {
    v.map_values(|l: Vec<Line>| lines_view(l@))
}

impl Line {
    fn new() -> (l: Line)
        ensures
            l@ == LineV::empty(),
    {
        let l = Line { spans: Vec::new() };
        assert(l@ =~= LineV::empty());
        l
    }

    fn with(self, tone: Tone, text: String) -> (l: Line)
        ensures
            l@ == self@.push((tone, text@)),
    {
        let mut spans = self.spans;
        let ghost before = self@;
        let ghost one = text@;
        spans.push((tone, text));
        let l = Line { spans };
        assert(l@ =~= before.push((tone, one)));
        l
    }

    fn toned(tone: Tone, text: String) -> (l: Line)
        ensures
            l@ == seq![(tone, text@)],
    {
        let l = Line::new().with(tone, text);
        assert(l@ =~= seq![(tone, text@)]);
        l
    }
}

fn put(v: &mut Vec<Line>, l: Line)
    ensures
        lines_view(final(v)@) == lines_view(old(v)@).push(l@),
{
    let ghost before = lines_view(v@);
    let ghost one = l@;
    v.push(l);
    assert(lines_view(v@) =~= before.push(one));
}

/// A list with a title.
#[derive(Debug)]
pub struct ListView {
    pub title: String,
    pub items: Vec<Vec<Line>>,
    /// The item under the cursor.
    pub selected: Option<usize>,
    pub focused: bool,
}

/// A [`ListView`] by its contents.
#[verifier::ext_equal]
pub struct ListV {
    pub title: Seq<char>,
    pub items: Seq<Seq<LineV>>,
    pub selected: Option<usize>,
    pub focused: bool,
}

impl View for ListView {
    type V = ListV;

    open spec fn view(&self) -> ListV {
        ListV {
            title: self.title@,
            items: items_view(self.items@),
            selected: self.selected,
            focused: self.focused,
        }
    }
}

/// Text with a title.
#[derive(Debug)]
pub struct TextView {
    pub title: String,
    pub lines: Vec<Line>,
    /// How many lines are scrolled past.
    pub scroll: u16,
    pub focused: bool,
}

/// A [`TextView`] by its contents.
#[verifier::ext_equal]
pub struct TextV {
    pub title: Seq<char>,
    pub lines: Seq<LineV>,
    pub scroll: u16,
    pub focused: bool,
}

impl View for TextView {
    type V = TextV;

    open spec fn view(&self) -> TextV {
        TextV {
            title: self.title@,
            lines: lines_view(self.lines@),
            scroll: self.scroll,
            focused: self.focused,
        }
    }
}

// ── the commit list ─────────────────────────────────────────────────────────

/// How many hunks go to a destination, in a column of two cells.
pub open spec fn badge(n: nat) -> (Tone, Seq<char>) {
    if n == 0 {
        (Tone::Plain, "  "@)
    } else if n < 10 {
        (Tone::Dest, text::decimal_of(n) + " "@)
    } else {
        (Tone::Dest, text::decimal_of(n))
    }
}

impl AppV {
    /// The row of the new commit.
    pub open spec fn phantom_row(self) -> LineV {
        seq![
            (
                Tone::Dest,
                if self.active_target() == Some(tui::phantom()) {
                    "◀"@
                } else {
                    " "@
                },
            ),
            badge(labels::times(tui::routes_of(self.files), tui::phantom())),
            (
                Tone::Added,
                if self.phantom_is_tip() {
                    "+ new commit at the tip"@
                } else {
                    "+ new commit here"@
                },
            ),
        ]
    }

    /// The mark of a commit. A pending shape edit wins: it is the bigger change.
    pub open spec fn mark(self, c: Oid) -> (Tone, Seq<char>) {
        if self.shape == ShapeV::Drop(c) {
            (Tone::Removed, "✗"@)
        } else if self.shape == ShapeV::Squash(c) {
            (Tone::Added, "⇣"@)
        } else if self.active_target() == Some(c) {
            (Tone::Dest, "◀"@)
        } else if self.source == Source::Commit(c) {
            (Tone::Path, "⌁"@)
        } else {
            (Tone::Dim, " "@)
        }
    }

    /// The row of a commit: mark and count in the left gutter, where no long summary
    /// can push them out; the branches that a rewrite carries along at the end.
    pub open spec fn commit_row(self, r: RowV) -> LineV {
        seq![
            self.mark(r.oid),
            badge(labels::times(tui::routes_of(self.files), r.oid)),
            (Tone::Oid, r.oid.spec_short() + " "@),
            (Tone::Plain, r.summary),
            (
                Tone::Path,
                if r.refs.len() == 0 {
                    Seq::empty()
                } else {
                    " ("@ + text::joined(r.refs, ", "@) + ")"@
                },
            ),
        ]
    }

    /// The rows of the commit list.
    pub open spec fn commit_items(self) -> Seq<Seq<LineV>> {
        (if self.has_phantom() {
            seq![seq![self.phantom_row()]]
        } else {
            Seq::empty()
        }) + Seq::new(self.commits.len(), |i: int| seq![self.commit_row(self.commits[i])])
    }

    /// The title of the commit list.
    pub open spec fn commit_title(self) -> Seq<char> {
        if self.shape != ShapeV::Unchanged {
            "commits · "@ + self.shape.summary() + " pending — p/Enter"@
        } else if self.base is Some {
            "commits · "@ + text::decimal_of(self.commits.len())
                + " shown (--base widens) · N routed"@
        } else {
            "commits · ◀ target · N routed"@
        }
    }

    /// The row under the cursor. Where there is a phantom, it is the first row.
    pub open spec fn commit_selected(self) -> Option<usize> {
        if self.has_phantom() {
            Some(
                if self.phantom_cursor {
                    0
                } else {
                    (self.commit_cursor + 1) as usize
                },
            )
        } else if self.commits.len() > 0 {
            Some(self.commit_cursor)
        } else {
            None
        }
    }

    /// The commit list.
    pub open spec fn commits_shown(self) -> ListV {
        ListV {
            title: self.commit_title(),
            items: self.commit_items(),
            selected: self.commit_selected(),
            focused: self.focus == Pane::Commits,
        }
    }
}

fn count_in(r: &Vec<Oid>, c: Oid) -> (n: usize)
    ensures
        n == labels::times(r@, c),
{
    let mut n: usize = 0;
    let mut i: usize = 0;
    assert(r@.take(0) =~= Seq::empty());
    while i < r.len()
        invariant
            0 <= i <= r@.len(),
            n == labels::times(r@.take(i as int), c),
            n <= i,
        decreases r@.len() - i,
    {
        assert(r@.take(i + 1).drop_last() =~= r@.take(i as int));
        if r[i] == c {
            n += 1;
        }
        i += 1;
    }
    assert(r@.take(i as int) =~= r@);
    n
}

fn badge_for(n: usize) -> (b: (Tone, String))
    ensures
        (b.0, b.1@) == badge(n as nat),
{
    if n == 0 {
        (Tone::Plain, "  ".to_owned())
    } else if n < 10 {
        (Tone::Dest, text::decimal(n).concat(" "))
    } else {
        (Tone::Dest, text::decimal(n))
    }
}

fn is_target(t: Option<Oid>, c: Oid) -> (b: bool)
    ensures
        b == (t == Some(c)),
{
    match t {
        Some(o) => o == c,
        None => false,
    }
}

impl App {
    /// See [`AppV::mark`].
    fn mark(&self, target: Option<Oid>, c: Oid) -> (m: (Tone, String))
        requires
            target == self@.active_target(),
        ensures
            (m.0, m.1@) == self@.mark(c),
    {
        match &self.shape {
            Shape::Drop(o) => if *o == c {
                return (Tone::Removed, "✗".to_owned());
            },
            Shape::Squash(o) => if *o == c {
                return (Tone::Added, "⇣".to_owned());
            },
            _ => {},
        }
        if is_target(target, c) {
            return (Tone::Dest, "◀".to_owned());
        }
        match self.source {
            Source::Commit(o) => if o == c {
                return (Tone::Path, "⌁".to_owned());
            },
            _ => {},
        }
        (Tone::Dim, " ".to_owned())
    }

    /// The row of a commit.
    fn commit_row(&self, target: Option<Oid>, routes: &Vec<Oid>, r: &CommitRow) -> (l: Line)
        requires
            target == self@.active_target(),
            routes@ == tui::routes_of(self@.files),
        ensures
            l@ == self@.commit_row(r@),
    {
        let m = self.mark(target, r.oid);
        let b = badge_for(count_in(routes, r.oid));
        assert(text::texts(r.refs@).len() == r.refs@.len());
        let refs = if r.refs.len() == 0 {
            String::new()
        } else {
            " (".to_owned().concat(&text::join(&r.refs, ", ")).concat(")")
        };
        assert(r.refs@.len() == 0 ==> refs@ =~= Seq::empty());
        let l = Line::new().with(m.0, m.1).with(b.0, b.1).with(
            Tone::Oid,
            r.oid.short().concat(" "),
        ).with(Tone::Plain, r.summary.clone()).with(Tone::Path, refs);
        assert(l@ =~= self@.commit_row(r@));
        l
    }

    /// The row of the new commit.
    fn phantom_row(&self, target: Option<Oid>, routes: &Vec<Oid>) -> (l: Line)
        requires
            target == self@.active_target(),
            routes@ == tui::routes_of(self@.files),
        ensures
            l@ == self@.phantom_row(),
    {
        let m = if is_target(target, tui::phantom()) {
            "◀".to_owned()
        } else {
            " ".to_owned()
        };
        let b = badge_for(count_in(routes, tui::phantom()));
        let text = if self.phantom_is_tip() {
            "+ new commit at the tip".to_owned()
        } else {
            "+ new commit here".to_owned()
        };
        let l = Line::new().with(Tone::Dest, m).with(b.0, b.1).with(Tone::Added, text);
        assert(l@ =~= self@.phantom_row());
        l
    }

    /// The title of the commit list.
    fn commit_title(&self) -> (s: String)
        ensures
            s@ == self@.commit_title(),
    {
        let shaped = match &self.shape {
            Shape::Unchanged => false,
            _ => true,
        };
        if shaped {
            "commits · ".to_owned().concat(&self.shape_summary()).concat(" pending — p/Enter")
        } else if self.base.is_some() {
            "commits · ".to_owned().concat(&text::decimal(self.commits.len())).concat(
                " shown (--base widens) · N routed",
            )
        } else {
            "commits · ◀ target · N routed".to_owned()
        }
    }

    /// The commit list. `◀` marks where the CURSOR hunk goes; the count is how many go
    /// there in total. The phantom row is drawn here and nowhere else.
    pub fn render_commits(&self) -> (v: ListView)
        requires
            self@.wf(),
        ensures
            v@ == self@.commits_shown(),
    {
        let target = self.active_target();
        let routes = self.routes();
        let ghost all = self@.commit_items();
        let mut items: Vec<Vec<Line>> = Vec::new();
        let mut selected: Option<usize> = None;
        let len: usize = self.commits.len();
        if self.has_phantom() {
            let mut row: Vec<Line> = Vec::new();
            put(&mut row, self.phantom_row(target, &routes));
            assert(lines_view(row@) =~= seq![self@.phantom_row()]);
            let ghost one = lines_view(row@);
            items.push(row);
            assert(items_view(items@) =~= seq![one]);
            assert(self.commit_cursor < len || len == 0);
            selected = Some(
                if self.phantom_cursor {
                    0
                } else {
                    self.commit_cursor + 1
                },
            );
        } else if len > 0 {
            selected = Some(self.commit_cursor);
        }
        let ghost head = items_view(items@);
        let mut i: usize = 0;
        assert(head + Seq::<Seq<LineV>>::empty() =~= head);
        assert(items_view(items@) =~= head + Seq::new(
            0,
            |j: int| seq![self@.commit_row(self@.commits[j])],
        ));
        while i < len
            invariant
                len == self.commits@.len(),
                target == self@.active_target(),
                routes@ == tui::routes_of(self@.files),
                0 <= i <= len,
                items_view(items@) == head + Seq::new(
                    i as nat,
                    |j: int| seq![self@.commit_row(self@.commits[j])],
                ),
            decreases len - i,
        {
            assert(self@.commits[i as int] == self.commits@[i as int]@);
            let ghost before = items_view(items@);
            let mut row: Vec<Line> = Vec::new();
            put(&mut row, self.commit_row(target, &routes, &self.commits[i]));
            assert(lines_view(row@) =~= seq![self@.commit_row(self@.commits[i as int])]);
            let ghost one = lines_view(row@);
            items.push(row);
            i += 1;
            assert(items_view(items@) =~= before.push(one));
            assert(items_view(items@) =~= head + Seq::new(
                i as nat,
                |j: int| seq![self@.commit_row(self@.commits[j])],
            ));
        }
        assert(items_view(items@) =~= all);
        ListView {
            title: self.commit_title(),
            items,
            selected,
            focused: self.focus == Pane::Commits,
        }
    }
}

// ── the hunk list ───────────────────────────────────────────────────────────

/// How many lines of the hunk under the cursor are shown. It shares its column with
/// the destination's diff, and must leave room for other hunks.
pub const HUNK_PREVIEW_LINES: usize = 6;

/// A line of a diff, with its mark.
pub open spec fn hunk_line(l: (char, Seq<char>)) -> LineV {
    if l.0 == '+' {
        seq![(Tone::Added, "+"@ + l.1)]
    } else if l.0 == '-' {
        seq![(Tone::Removed, "-"@ + l.1)]
    } else {
        seq![(Tone::Plain, " "@ + l.1)]
    }
}

/// The lines of a hunk under the cursor: the first few, and how many more there are.
pub open spec fn hunk_body(lines: Seq<(char, Seq<char>)>) -> Seq<LineV> {
    if lines.len() <= HUNK_PREVIEW_LINES {
        lines.map_values(|l: (char, Seq<char>)| hunk_line(l))
    } else {
        lines.take(HUNK_PREVIEW_LINES as int).map_values(
            |l: (char, Seq<char>)| hunk_line(l),
        ).push(
            seq![
                (
                    Tone::Dim,
                    "  … +"@ + text::decimal_of((lines.len() - HUNK_PREVIEW_LINES) as nat)
                        + " more line(s)"@,
                ),
            ],
        )
    }
}

impl AppV {
    /// The row of a hunk: every row names its file, hunk and target.
    pub open spec fn hunk_row(self, f: FileV, h: int, wide: bool) -> LineV {
        seq![
            if f.selected[h] {
                (Tone::Added, "[x] "@)
            } else {
                (Tone::Dim, "[ ] "@)
            },
            (
                Tone::Path,
                tui::truncated(
                    f.path,
                    if wide {
                        22
                    } else {
                        14
                    },
                ) + " "@,
            ),
            (
                Tone::Dim,
                if h < f.hunks.len() {
                    tui::truncated(
                        f.hunks[h].header,
                        if wide {
                            20
                        } else {
                            12
                        },
                    )
                } else {
                    Seq::empty()
                },
            ),
            (Tone::Dest, "  → "@ + self.target_label(f.targets[h])),
        ]
    }

    /// The item of a hunk: only the one under the cursor shows its diff.
    pub open spec fn hunk_item(self, i: int, wide: bool) -> Seq<LineV> {
        let (fi, h) = self.flat[i];
        let f = self.files[fi as int];
        seq![self.hunk_row(f, h as int, wide)] + if i == self.hunk_cursor && h < f.hunks.len() {
            hunk_body(f.hunks[h as int].lines)
        } else {
            Seq::empty()
        }
    }

    /// What is shown where there is nothing to pick: what to do, not just what is
    /// missing.
    pub open spec fn no_hunks(self) -> Seq<LineV> {
        if self.skipped.len() == 0 {
            seq![
                plain("Nothing staged. This screen does three things:"@),
                plain(""@),
                seq![(Tone::Path, "  Fold UNSTAGED work into an old commit"@)],
                plain("    Press w — every unstaged hunk appears here with a blame-inferred"@),
                plain("    target, and Enter absorbs. No `git add -p` first."@),
                plain(""@),
                seq![(Tone::Path, "  Move hunks BETWEEN commits  (nothing to stage)"@)],
                plain("    Esc → commit list, press e on a commit to load its hunks,"@),
                plain("    Space to pick, then go to the destination commit and press t."@),
                plain(""@),
                seq![(Tone::Path, "  Move a whole file"@)],
                plain("    m: pick a file, Tab to a commit, t. · q: quit"@),
            ]
        } else {
            seq![
                plain(
                    text::decimal_of(self.skipped.len())
                        + " staged file(s) can't be hunk-folded (binary, or a whole-file add/delete)."@,
                ),
                plain(""@),
                plain("Use `m` (the file list) to re-anchor a file at another commit."@),
            ]
        }
    }

    /// The title of the hunk list: the counts live here, where a cramped status line
    /// cannot drop them.
    pub open spec fn hunk_title(self) -> Seq<char> {
        let counts = text::decimal_of(tui::picked_of(self.files)) + "/"@ + text::decimal_of(
            self.flat.len(),
        );
        match self.source {
            Source::Commit(o) => "[HUNKS FROM "@ + o.spec_short() + "] "@ + counts
                + " picked · t: destination"@,
            Source::Unstaged => "[UNSTAGED HUNKS] "@ + counts + " selected · Enter: absorb"@,
            _ => "[STAGED HUNKS] "@ + counts + " selected · Enter: absorb"@,
        }
    }

    /// The hunk list, in a pane that is wide or not.
    pub open spec fn hunks_shown(self, wide: bool) -> ListV {
        ListV {
            title: self.hunk_title(),
            items: if self.flat.len() == 0 {
                seq![self.no_hunks()]
            } else {
                Seq::new(self.flat.len(), |i: int| self.hunk_item(i, wide))
            },
            selected: if self.flat.len() == 0 {
                None
            } else {
                Some(self.hunk_cursor)
            },
            focused: self.focus == Pane::Right,
        }
    }
}

/// Text without a tone.
pub open spec fn plain(s: Seq<char>) -> LineV {
    seq![(Tone::Plain, s)]
}

fn diff_line(l: &(char, String)) -> (r: Line)
    ensures
        r@ == hunk_line((l.0, l.1@)),
{
    if l.0 == '+' {
        Line::toned(Tone::Added, "+".to_owned().concat(&l.1))
    } else if l.0 == '-' {
        Line::toned(Tone::Removed, "-".to_owned().concat(&l.1))
    } else {
        Line::toned(Tone::Plain, " ".to_owned().concat(&l.1))
    }
}

/// Append the lines of a hunk under the cursor.
fn put_body(v: &mut Vec<Line>, lines: &Vec<(char, String)>)
    ensures
        lines_view(final(v)@) == lines_view(old(v)@) + hunk_body(patch::marked(lines@)),
{
    let ghost start = lines_view(v@);
    let ghost ls = patch::marked(lines@);
    let ghost body = ls.map_values(|l: (char, Seq<char>)| hunk_line(l));
    let n: usize = lines.len();
    let mut i: usize = 0;
    assert(start + body.take(0) =~= start);
    while i < n && i < HUNK_PREVIEW_LINES
        invariant
            n == lines@.len(),
            ls == patch::marked(lines@),
            body == ls.map_values(|l: (char, Seq<char>)| hunk_line(l)),
            0 <= i <= n,
            i <= HUNK_PREVIEW_LINES,
            lines_view(v@) == start + body.take(i as int),
        decreases n - i,
    {
        assert(ls[i as int] == (lines@[i as int].0, lines@[i as int].1@));
        put(v, diff_line(&lines[i]));
        i += 1;
        assert(body.take(i as int) =~= body.take(i - 1).push(body[i - 1]));
        assert(lines_view(v@) =~= start + body.take(i as int));
    }
    if n > HUNK_PREVIEW_LINES {
        let more = "  … +".to_owned().concat(&text::decimal(n - HUNK_PREVIEW_LINES)).concat(
            " more line(s)",
        );
        put(v, Line::toned(Tone::Dim, more));
        proof {
            let few = ls.take(HUNK_PREVIEW_LINES as int).map_values(
                |l: (char, Seq<char>)| hunk_line(l),
            );
            assert(body.take(i as int) =~= few);
            assert(lines_view(v@) =~= start + hunk_body(ls));
        }
    } else {
        assert(body.take(i as int) =~= body);
        assert(lines_view(v@) =~= start + hunk_body(ls));
    }
}

fn put_text(v: &mut Vec<Line>, tone: Tone, s: &str)
    ensures
        lines_view(final(v)@) == lines_view(old(v)@).push(seq![(tone, s@)]),
{
    put(v, Line::toned(tone, s.to_owned()));
}

impl App {
    /// The row of a hunk.
    fn hunk_row(&self, f: &FileEntry, h: usize, wide: bool) -> (l: Line)
        requires
            f@.wf(),
            h < f@.selected.len(),
        ensures
            l@ == self@.hunk_row(f@, h as int, wide),
    {
        let (path_cap, head_cap): (usize, usize) = if wide {
            (22, 20)
        } else {
            (14, 12)
        };
        assert(f@.hunks.len() == f.hunks@.len());
        let header = if h < f.hunks.len() {
            assert(f@.hunks[h as int] == f.hunks@[h as int]@);
            tui::truncate(f.hunks[h].header(), head_cap)
        } else {
            String::new()
        };
        assert(h >= f.hunks@.len() ==> header@ =~= Seq::empty());
        let on = f.selected[h];
        let l = if on {
            Line::new().with(Tone::Added, "[x] ".to_owned())
        } else {
            Line::new().with(Tone::Dim, "[ ] ".to_owned())
        };
        let l = l.with(Tone::Path, tui::truncate(&f.path, path_cap).concat(" ")).with(
            Tone::Dim,
            header,
        ).with(Tone::Dest, "  → ".to_owned().concat(&self.target_label(f.targets[h])));
        assert(l@ =~= self@.hunk_row(f@, h as int, wide));
        l
    }

    /// The item of a hunk.
    fn hunk_item(&self, i: usize, wide: bool) -> (v: Vec<Line>)
        requires
            self@.wf(),
            i < self@.flat.len(),
        ensures
            lines_view(v@) == self@.hunk_item(i as int, wide),
    {
        let (fi, h) = self.flat[i];
        assert(self@.flat[i as int] == (fi, h));
        assert(self@.files[fi as int] == self.files@[fi as int]@);
        let f = &self.files[fi];
        assert(self@.files[fi as int].wf());
        let mut v: Vec<Line> = Vec::new();
        put(&mut v, self.hunk_row(f, h, wide));
        assert(lines_view(v@) =~= seq![self@.hunk_row(f@, h as int, wide)]);
        assert(f@.hunks.len() == f.hunks@.len());
        if i == self.hunk_cursor && h < f.hunks.len() {
            assert(f@.hunks[h as int] == f.hunks@[h as int]@);
            put_body(&mut v, f.hunks[h].shown());
        }
        assert(lines_view(v@) =~= self@.hunk_item(i as int, wide));
        v
    }

    /// What is shown where there is nothing to pick.
    fn no_hunks(&self) -> (v: Vec<Line>)
        ensures
            lines_view(v@) == self@.no_hunks(),
    {
        let mut v: Vec<Line> = Vec::new();
        assert(text::texts(self.skipped@).len() == self.skipped@.len());
        if self.skipped.len() == 0 {
            put_text(&mut v, Tone::Plain, "Nothing staged. This screen does three things:");
            put_text(&mut v, Tone::Plain, "");
            put_text(&mut v, Tone::Path, "  Fold UNSTAGED work into an old commit");
            put_text(
                &mut v,
                Tone::Plain,
                "    Press w — every unstaged hunk appears here with a blame-inferred",
            );
            put_text(
                &mut v,
                Tone::Plain,
                "    target, and Enter absorbs. No `git add -p` first.",
            );
            put_text(&mut v, Tone::Plain, "");
            put_text(&mut v, Tone::Path, "  Move hunks BETWEEN commits  (nothing to stage)");
            put_text(
                &mut v,
                Tone::Plain,
                "    Esc → commit list, press e on a commit to load its hunks,",
            );
            put_text(
                &mut v,
                Tone::Plain,
                "    Space to pick, then go to the destination commit and press t.",
            );
            put_text(&mut v, Tone::Plain, "");
            put_text(&mut v, Tone::Path, "  Move a whole file");
            put_text(&mut v, Tone::Plain, "    m: pick a file, Tab to a commit, t. · q: quit");
        } else {
            let n = text::decimal(self.skipped.len()).concat(
                " staged file(s) can't be hunk-folded (binary, or a whole-file add/delete).",
            );
            put(&mut v, Line::toned(Tone::Plain, n));
            put_text(&mut v, Tone::Plain, "");
            put_text(
                &mut v,
                Tone::Plain,
                "Use `m` (the file list) to re-anchor a file at another commit.",
            );
        }
        assert(lines_view(v@) =~= self@.no_hunks());
        v
    }

    /// The title of the hunk list.
    fn hunk_title(&self) -> (s: String)
        requires
            self@.wf(),
        ensures
            s@ == self@.hunk_title(),
    {
        let counts = text::decimal(self.picked()).concat("/").concat(
            &text::decimal(self.flat.len()),
        );
        match self.source {
            Source::Commit(o) => "[HUNKS FROM ".to_owned().concat(&o.short()).concat(
                "] ",
            ).concat(&counts).concat(" picked · t: destination"),
            Source::Unstaged => "[UNSTAGED HUNKS] ".to_owned().concat(&counts).concat(
                " selected · Enter: absorb",
            ),
            _ => "[STAGED HUNKS] ".to_owned().concat(&counts).concat(
                " selected · Enter: absorb",
            ),
        }
    }

    /// The hunk list. `wide` tells whether the pane has room for long names.
    pub fn render_hunks(&self, wide: bool) -> (v: ListView)
        requires
            self@.wf(),
        ensures
            v@ == self@.hunks_shown(wide),
    {
        let n: usize = self.flat.len();
        let ghost all = Seq::new(self@.flat.len(), |i: int| self@.hunk_item(i, wide));
        let mut items: Vec<Vec<Line>> = Vec::new();
        let mut i: usize = 0;
        assert(items_view(items@) =~= all.take(0));
        while i < n
            invariant
                self@.wf(),
                n == self@.flat.len(),
                all == Seq::new(self@.flat.len(), |i: int| self@.hunk_item(i, wide)),
                0 <= i <= n,
                items_view(items@) == all.take(i as int),
            decreases n - i,
        {
            let ghost before = items_view(items@);
            let item = self.hunk_item(i, wide);
            let ghost one = lines_view(item@);
            items.push(item);
            i += 1;
            assert(items_view(items@) =~= before.push(one));
            assert(all.take(i as int) =~= all.take(i - 1).push(all[i - 1]));
        }
        assert(all.take(i as int) =~= all);
        if n == 0 {
            let item = self.no_hunks();
            let ghost one = lines_view(item@);
            items.push(item);
            assert(items_view(items@) =~= seq![one]);
        }
        ListView {
            title: self.hunk_title(),
            items,
            selected: if n == 0 {
                None
            } else {
                Some(self.hunk_cursor)
            },
            focused: self.focus == Pane::Right,
        }
    }
}

// ── the diff ────────────────────────────────────────────────────────────────

/// A line of a commit's diff: headers stand out, and have no mark of their own.
pub open spec fn commit_line(l: (char, Seq<char>)) -> LineV {
    if l.0 == 'F' || l.0 == 'H' {
        seq![(Tone::Path, l.1)]
    } else {
        hunk_line(l)
    }
}

impl AppV {
    /// The hunks of a file's first `n` that go into the new commit.
    pub open spec fn going_in(self, f: FileV, n: int) -> Seq<LineV>
        decreases n,
    {
        if n <= 0 {
            Seq::empty()
        } else {
            let front = self.going_in(f, n - 1);
            if f.selected[n - 1] && f.targets[n - 1] == Some(tui::phantom()) {
                front.push(
                    seq![
                        (Tone::Path, f.path + " "@),
                        (
                            Tone::Dim,
                            if n - 1 < f.hunks.len() {
                                f.hunks[n - 1].header
                            } else {
                                Seq::empty()
                            },
                        ),
                    ],
                )
            } else {
                front
            }
        }
    }

    /// The hunks of the first `n` files that go into the new commit.
    pub open spec fn all_going_in(self, n: int) -> Seq<LineV>
        decreases n,
    {
        if n <= 0 {
            Seq::empty()
        } else {
            self.all_going_in(n - 1) + self.going_in(
                self.files[n - 1],
                self.files[n - 1].targets.len() as int,
            )
        }
    }

    /// What the new commit would hold.
    pub open spec fn phantom_diff(self) -> TextV {
        let going = self.all_going_in(self.files.len() as int);
        TextV {
            title: if self.phantom_is_tip() {
                "[NEW COMMIT] ⏎ names it and commits"@
            } else {
                "[NEW COMMIT] ⏎ names it and splits"@
            },
            lines: seq![
                seq![
                    (
                        Tone::Dim,
                        if self.phantom_is_tip() {
                            "A new commit on top of the stack, from the hunks you pick."@
                        } else {
                            "A new commit, inserted before the one these hunks came from."@
                        },
                    ),
                ],
            ] + if going.len() == 0 {
                seq![plain("Nothing routed here yet — pick hunks with Space, then press t."@)]
            } else {
                going
            },
            scroll: 0,
            focused: true,
        }
    }

    /// What Tab does from here.
    pub open spec fn diff_hint(self) -> Seq<char> {
        if self.source == Source::Files {
            "Tab: the file list above"@
        } else if self.flat.len() == 0 {
            "read-only · nothing staged to fold"@
        } else {
            "Tab: pick the hunks above"@
        }
    }

    /// The diff of the commit under the cursor.
    pub open spec fn commit_diff(self) -> TextV {
        let here = self.commit_cursor < self.commits.len();
        let row = self.commits[self.commit_cursor as int];
        let diff = match row.diff {
            Some(d) => d,
            None => Seq::empty(),
        };
        TextV {
            title: if here {
                "[DIFF] "@ + row.oid.spec_short() + " "@ + row.summary + " ("@ + self.diff_hint()
                    + ")"@
            } else {
                "[DIFF]"@
            },
            lines: if !here || diff.len() == 0 {
                seq![seq![(Tone::Dim, "(empty commit)"@)]]
            } else {
                diff.map_values(|l: (char, Seq<char>)| commit_line(l))
            },
            scroll: self.diff_scroll,
            focused: self.focus == Pane::Commits,
        }
    }

    /// The diff pane. On the phantom row the commit list's diff would be a lie: that
    /// row is a commit that does not exist yet.
    pub open spec fn diff_shown(self) -> TextV {
        if self.on_phantom() {
            self.phantom_diff()
        } else {
            self.commit_diff()
        }
    }
}

fn shown_line(l: &(char, String)) -> (r: Line)
    ensures
        r@ == commit_line((l.0, l.1@)),
{
    if l.0 == 'F' || l.0 == 'H' {
        Line::toned(Tone::Path, l.1.clone())
    } else {
        diff_line(l)
    }
}

impl App {
    /// Append the hunks of a file that go into the new commit.
    fn put_going_in(&self, v: &mut Vec<Line>, f: &FileEntry)
        requires
            f@.wf(),
        ensures
            lines_view(final(v)@) == lines_view(old(v)@) + self@.going_in(
                f@,
                f@.targets.len() as int,
            ),
    {
        let ghost start = lines_view(v@);
        let mut h: usize = 0;
        assert(start + self@.going_in(f@, 0) =~= start);
        assert(f@.hunks.len() == f.hunks@.len());
        while h < f.targets.len()
            invariant
                f@.wf(),
                f@.hunks.len() == f.hunks@.len(),
                0 <= h <= f.targets@.len(),
                lines_view(v@) == start + self@.going_in(f@, h as int),
            decreases f.targets@.len() - h,
        {
            if f.selected[h] && is_target(f.targets[h], tui::phantom()) {
                let header = if h < f.hunks.len() {
                    assert(f@.hunks[h as int] == f.hunks@[h as int]@);
                    f.hunks[h].header().clone()
                } else {
                    String::new()
                };
                assert(h >= f.hunks@.len() ==> header@ =~= Seq::empty());
                let l = Line::new().with(Tone::Path, f.path.clone().concat(" ")).with(
                    Tone::Dim,
                    header,
                );
                let ghost one = l@;
                let ghost before = lines_view(v@);
                assert(one =~= seq![(Tone::Path, f.path@ + " "@), (Tone::Dim, header@)]);
                put(v, l);
                assert(before.push(one) =~= start + self@.going_in(f@, h as int).push(one));
            }
            h += 1;
        }
    }

    /// What the new commit would hold.
    fn phantom_diff(&self) -> (v: TextView)
        requires
            self@.wf(),
        ensures
            v@ == self@.phantom_diff(),
    {
        let tip = self.phantom_is_tip();
        let mut lines: Vec<Line> = Vec::new();
        put_text(
            &mut lines,
            Tone::Dim,
            if tip {
                "A new commit on top of the stack, from the hunks you pick."
            } else {
                "A new commit, inserted before the one these hunks came from."
            },
        );
        let ghost first = lines_view(lines@);
        assert(first.len() == 1);
        let mut i: usize = 0;
        assert(first + self@.all_going_in(0) =~= first);
        while i < self.files.len()
            invariant
                self@.wf(),
                0 <= i <= self.files@.len(),
                lines_view(lines@) == first + self@.all_going_in(i as int),
            decreases self.files@.len() - i,
        {
            assert(self@.files[i as int] == self.files@[i as int]@);
            assert(self@.files[i as int].wf());
            let ghost before = lines_view(lines@);
            self.put_going_in(&mut lines, &self.files[i]);
            i += 1;
            assert(lines_view(lines@) =~= first + self@.all_going_in(i as int));
        }
        assert(lines_view(lines@).len() == lines@.len());
        if lines.len() == 1 {
            put_text(
                &mut lines,
                Tone::Plain,
                "Nothing routed here yet — pick hunks with Space, then press t.",
            );
        }
        let v = TextView {
            title: if tip {
                "[NEW COMMIT] ⏎ names it and commits".to_owned()
            } else {
                "[NEW COMMIT] ⏎ names it and splits".to_owned()
            },
            lines,
            scroll: 0,
            focused: true,
        };
        assert(v@ =~= self@.phantom_diff());
        v
    }

    /// The diff of the commit under the cursor.
    fn commit_diff(&self) -> (v: TextView)
        ensures
            v@ == self@.commit_diff(),
    {
        let mut lines: Vec<Line> = Vec::new();
        let mut title = "[DIFF]".to_owned();
        if self.commit_cursor < self.commits.len() {
            let row = &self.commits[self.commit_cursor];
            assert(self@.commits[self.commit_cursor as int] == row@);
            let hint = if self.source == Source::Files {
                "Tab: the file list above"
            } else if self.flat.len() == 0 {
                "read-only · nothing staged to fold"
            } else {
                "Tab: pick the hunks above"
            };
            title = "[DIFF] ".to_owned().concat(&row.oid.short()).concat(" ").concat(
                &row.summary,
            ).concat(" (").concat(hint).concat(")");
            if let Some(d) = &row.diff {
                let ghost all = patch::marked(d@).map_values(
                    |l: (char, Seq<char>)| commit_line(l),
                );
                let mut i: usize = 0;
                assert(lines_view(lines@) =~= all.take(0));
                while i < d.len()
                    invariant
                        all == patch::marked(d@).map_values(
                            |l: (char, Seq<char>)| commit_line(l),
                        ),
                        0 <= i <= d@.len(),
                        lines_view(lines@) == all.take(i as int),
                    decreases d@.len() - i,
                {
                    assert(patch::marked(d@)[i as int] == (d@[i as int].0, d@[i as int].1@));
                    put(&mut lines, shown_line(&d[i]));
                    i += 1;
                    assert(all.take(i as int) =~= all.take(i - 1).push(all[i - 1]));
                }
                assert(all.take(i as int) =~= all);
            }
        }
        assert(lines_view(lines@).len() == lines@.len());
        if lines.len() == 0 {
            put_text(&mut lines, Tone::Dim, "(empty commit)");
            assert(lines_view(lines@) =~= seq![seq![(Tone::Dim, "(empty commit)"@)]]);
        }
        let v = TextView {
            title,
            lines,
            scroll: self.diff_scroll,
            focused: self.focus == Pane::Commits,
        };
        assert(v@ =~= self@.commit_diff());
        v
    }

    /// The diff pane: the commit under the cursor, or what the new commit would hold.
    pub fn render_commit_diff(&self) -> (v: TextView)
        requires
            self@.wf(),
        ensures
            v@ == self@.diff_shown(),
    {
        if self.on_phantom() {
            self.phantom_diff()
        } else {
            self.commit_diff()
        }
    }
}

// ── the file list ───────────────────────────────────────────────────────────

impl AppV {
    /// The title of the file list. A move needs a clean tree: say so UP FRONT.
    pub open spec fn move_title(self) -> Seq<char> {
        let shown = self.visible_files().len();
        if self.tree_dirty {
            "[MOVE] needs a clean tree — commit or stash your staged changes first"@
        } else {
            "[MOVE] "@ + text::decimal_of(shown) + (if self.filter.len() == 0 {
                Seq::empty()
            } else {
                " of "@ + text::decimal_of(self.move_files.len())
            }) + " file"@ + (if shown == 1 {
                ""@
            } else {
                "s"@
            }) + " → "@ + (match self.move_target {
                Some(o) => self.target_label(Some(o)),
                None => "(set with t)"@,
            }) + " · /: filter · t: dest"@
        }
    }

    /// The file list.
    pub open spec fn files_shown(self) -> ListV {
        let files = self.visible_files();
        ListV {
            title: self.move_title(),
            items: files.map_values(|p: Seq<char>| seq![plain(p)]),
            selected: if files.len() == 0 {
                None
            } else if self.move_cursor > files.len() - 1 {
                Some((files.len() - 1) as usize)
            } else {
                Some(self.move_cursor)
            },
            focused: self.focus == Pane::Right,
        }
    }
}

impl App {
    /// The title of the file list.
    fn move_title(&self, shown: usize) -> (s: String)
        requires
            shown == self@.visible_files().len(),
        ensures
            s@ == self@.move_title(),
    {
        if self.tree_dirty {
            return "[MOVE] needs a clean tree — commit or stash your staged changes first".to_owned();
        }
        assert(text::texts(self.move_files@).len() == self.move_files@.len());
        let of = if self.filter.as_str().is_empty() {
            String::new()
        } else {
            " of ".to_owned().concat(&text::decimal(self.move_files.len()))
        };
        assert(self.filter@.len() == 0 ==> of@ =~= Seq::empty());
        let dest = match self.move_target {
            Some(o) => self.target_label(Some(o)),
            None => "(set with t)".to_owned(),
        };
        "[MOVE] ".to_owned().concat(&text::decimal(shown)).concat(&of).concat(" file").concat(
            if shown == 1 {
                ""
            } else {
                "s"
            },
        ).concat(" → ").concat(&dest).concat(" · /: filter · t: dest")
    }

    /// The file list.
    pub fn render_move(&self) -> (v: ListView)
        ensures
            v@ == self@.files_shown(),
    {
        let files = self.visible_files();
        let n: usize = files.len();
        let ghost fv = self@.visible_files();
        assert(text::texts(files@).len() == n);
        let ghost all = fv.map_values(|p: Seq<char>| seq![plain(p)]);
        let mut items: Vec<Vec<Line>> = Vec::new();
        let mut i: usize = 0;
        assert(items_view(items@) =~= all.take(0));
        while i < n
            invariant
                n == files@.len(),
                fv == text::texts(files@),
                all == fv.map_values(|p: Seq<char>| seq![plain(p)]),
                0 <= i <= n,
                items_view(items@) == all.take(i as int),
            decreases n - i,
        {
            let ghost before = items_view(items@);
            let mut row: Vec<Line> = Vec::new();
            put_text(&mut row, Tone::Plain, &files[i]);
            assert(fv[i as int] == files@[i as int]@);
            assert(lines_view(row@) =~= seq![plain(fv[i as int])]);
            let ghost one = lines_view(row@);
            items.push(row);
            i += 1;
            assert(items_view(items@) =~= before.push(one));
            assert(all.take(i as int) =~= all.take(i - 1).push(all[i - 1]));
        }
        assert(all.take(i as int) =~= all);
        ListView {
            title: self.move_title(n),
            items,
            selected: if n == 0 {
                None
            } else if self.move_cursor > n - 1 {
                Some(n - 1)
            } else {
                Some(self.move_cursor)
            },
            focused: self.focus == Pane::Right,
        }
    }
}

// ── help ────────────────────────────────────────────────────────────────────

/// The help of one screen: a title, what the screen is for, and the keys that do
/// something there.
#[verifier::ext_equal]
pub struct HelpV {
    pub title: Seq<char>,
    pub lead: Seq<char>,
    pub rows: Seq<(Seq<char>, Seq<char>)>,
}

/// Rows of keys by their contents.
pub open spec fn keys_view(v: Seq<(&'static str, &'static str)>) -> Seq<(Seq<char>, Seq<char>)> {
    v.map_values(|r: (&'static str, &'static str)| (r.0@, r.1@))
}

/// The keys that work everywhere.
pub open spec fn common_keys() -> Seq<(Seq<char>, Seq<char>)> {
    seq![
        (""@, ""@),
        ("p"@, "preview — what would change, nothing written"@),
        ("⏎"@, "apply (press twice; the first press reports scope)"@),
        ("u"@, "undo the last transplant"@),
        ("c / i"@, "conflict rule · ignore whitespace"@),
        ("Esc"@, "step back · q quit"@),
    ]
}

impl AppV {
    /// Contextual help, scoped to the focused pane and the source: of one flat list of
    /// every key most would be lies on any given screen. The phantom row is not a
    /// commit, so it is not offered what can be done to one.
    pub open spec fn helped(self) -> HelpV {
        if self.focus == Pane::Commits {
            if self.on_phantom() {
                HelpV {
                    title: "+ new commit here"@,
                    lead: "A destination that does not exist yet — split hunks into it."@,
                    rows: seq![
                        ("t"@, "route the picked hunks into a new commit"@),
                        ("⏎"@, "name it and apply the split"@),
                        ("↑↓"@, "back down to the real commits"@),
                    ] + common_keys(),
                }
            } else {
                HelpV {
                    title: "Commits"@,
                    lead: "The stack, newest first — edit one, or send hunks to it."@,
                    rows: seq![
                        ("e"@, "open this commit's hunks, to take some out"@),
                        ("w"@, "open your UNSTAGED work as hunks to route"@),
                        ("t"@, "make this commit the destination"@),
                        ("f"@, "send every picked hunk here at once"@),
                        ("[ ]"@, "move this commit earlier / later"@),
                        ("d"@, "drop this commit"@),
                        ("s"@, "squash it into the one below"@),
                        ("r"@, "reword its message"@),
                    ] + common_keys(),
                }
            }
        } else {
            match self.source {
                Source::Files => HelpV {
                    title: "Files"@,
                    lead: "Whole-file move: pick a file, then a commit to move it to."@,
                    rows: seq![
                        ("↑↓"@, "pick a file"@),
                        ("/"@, "filter the list — applies as you type"@),
                        ("Tab"@, "cross to the commit list"@),
                        ("t"@, "move the file into the commit there"@),
                        ("m"@, "back to hunks"@),
                    ] + common_keys(),
                },
                Source::Staged => HelpV {
                    title: "Staged hunks"@,
                    lead: "Your uncommitted work — route each hunk into the stack."@,
                    rows: seq![
                        ("Spc"@, "pick / unpick this hunk"@),
                        ("a"@, "accept the target git blame inferred"@),
                        ("Tab"@, "cross to the commits, then t to send them"@),
                        ("m"@, "switch to whole-file move"@),
                    ] + common_keys(),
                },
                Source::Unstaged => HelpV {
                    title: "Unstaged hunks"@,
                    lead: "Work you never staged — fold it straight into the stack."@,
                    rows: seq![
                        ("Spc"@, "pick / unpick this hunk"@),
                        ("a"@, "accept the target git blame inferred"@),
                        ("Tab"@, "cross to the commits, then t to send them"@),
                        ("w"@, "back to your staged work"@),
                    ] + common_keys(),
                },
                Source::Commit(_) => HelpV {
                    title: "Commit hunks"@,
                    lead: "Hunks taken OUT of this commit — send them elsewhere."@,
                    rows: seq![
                        ("Spc"@, "pick / unpick this hunk"@),
                        ("a"@, "accept the target git blame inferred"@),
                        ("Tab"@, "cross to the commits, then t to send them"@),
                        ("t"@, "on `+ new commit here` splits them off instead"@),
                        ("Esc"@, "close this commit, back to your staged work"@),
                    ] + common_keys(),
                },
            }
        }
    }
}

/// Contextual help for the CURRENT screen: a title, one line saying what this screen
/// is for, and only the verbs that actually do something here.
pub fn help(app: &App) -> (r: (&'static str, &'static str, Vec<(&'static str, &'static str)>))
    ensures
        r.0@ == app@.helped().title,
        r.1@ == app@.helped().lead,
        keys_view(r.2@) == app@.helped().rows,
{
    let title: &'static str;
    let lead: &'static str;
    let mut rows: Vec<(&'static str, &'static str)> = Vec::new();
    if app.focus == Pane::Commits {
        if app.on_phantom() {
            title = "+ new commit here";
            lead = "A destination that does not exist yet — split hunks into it.";
            rows.push(("t", "route the picked hunks into a new commit"));
            rows.push(("⏎", "name it and apply the split"));
            rows.push(("↑↓", "back down to the real commits"));
        } else {
            title = "Commits";
            lead = "The stack, newest first — edit one, or send hunks to it.";
            rows.push(("e", "open this commit's hunks, to take some out"));
            rows.push(("w", "open your UNSTAGED work as hunks to route"));
            rows.push(("t", "make this commit the destination"));
            rows.push(("f", "send every picked hunk here at once"));
            rows.push(("[ ]", "move this commit earlier / later"));
            rows.push(("d", "drop this commit"));
            rows.push(("s", "squash it into the one below"));
            rows.push(("r", "reword its message"));
        }
    } else {
        match app.source {
        Source::Files => {
            title = "Files";
            lead = "Whole-file move: pick a file, then a commit to move it to.";
            rows.push(("↑↓", "pick a file"));
            rows.push(("/", "filter the list — applies as you type"));
            rows.push(("Tab", "cross to the commit list"));
            rows.push(("t", "move the file into the commit there"));
            rows.push(("m", "back to hunks"));
        },
        Source::Staged => {
            title = "Staged hunks";
            lead = "Your uncommitted work — route each hunk into the stack.";
            rows.push(("Spc", "pick / unpick this hunk"));
            rows.push(("a", "accept the target git blame inferred"));
            rows.push(("Tab", "cross to the commits, then t to send them"));
            rows.push(("m", "switch to whole-file move"));
        },
        Source::Unstaged => {
            title = "Unstaged hunks";
            lead = "Work you never staged — fold it straight into the stack.";
            rows.push(("Spc", "pick / unpick this hunk"));
            rows.push(("a", "accept the target git blame inferred"));
            rows.push(("Tab", "cross to the commits, then t to send them"));
            rows.push(("w", "back to your staged work"));
        },
        Source::Commit(_) => {
            title = "Commit hunks";
            lead = "Hunks taken OUT of this commit — send them elsewhere.";
            rows.push(("Spc", "pick / unpick this hunk"));
            rows.push(("a", "accept the target git blame inferred"));
            rows.push(("Tab", "cross to the commits, then t to send them"));
            rows.push(("t", "on `+ new commit here` splits them off instead"));
            rows.push(("Esc", "close this commit, back to your staged work"));
        },
        }
    }
    rows.push(("", ""));
    rows.push(("p", "preview — what would change, nothing written"));
    rows.push(("⏎", "apply (press twice; the first press reports scope)"));
    rows.push(("u", "undo the last transplant"));
    rows.push(("c / i", "conflict rule · ignore whitespace"));
    rows.push(("Esc", "step back · q quit"));
    assert(keys_view(rows@) =~= app@.helped().rows);
    (title, lead, rows)
}

/// `s` with blanks before it, up to five characters.
pub open spec fn right_aligned(s: Seq<char>) -> Seq<char> {
    Seq::new(
        (if s.len() < 5 {
            5 - s.len()
        } else {
            0
        }) as nat,
        |i: int| ' ',
    ) + s
}

fn align_right(s: &str) -> (r: String)
    ensures
        r@ == right_aligned(s@),
{
    let n: usize = text::chars_of(s).len();
    let mut r = String::new();
    let mut i: usize = n;
    while i < 5
        invariant
            n == s@.len(),
            n <= i,
            i <= 5 || i == n,
            r@ == Seq::new((i - n) as nat, |j: int| ' '),
        decreases 5 - i,
    {
        r.push(' ');
        i += 1;
        assert(r@ =~= Seq::new((i - n) as nat, |j: int| ' '));
    }
    r.concat(s)
}

impl HelpV {
    /// The lines of the help.
    pub open spec fn lines(self) -> Seq<LineV> {
        seq![seq![(Tone::Dim, self.lead)], plain(""@)] + self.rows.map_values(
            |r: (Seq<char>, Seq<char>)|
                seq![(Tone::Path, right_aligned(r.0) + "  "@), (Tone::Plain, r.1)],
        )
    }
}

impl App {
    /// The help overlay: its title, and its lines.
    pub fn render_help(&self) -> (r: (String, Vec<Line>))
        ensures
            r.0@ == " "@ + self@.helped().title + " — any key closes "@,
            lines_view(r.1@) == self@.helped().lines(),
    {
        let (title, lead, rows) = help(self);
        let ghost h = self@.helped();
        let ghost all = h.rows.map_values(
            |r: (Seq<char>, Seq<char>)|
                seq![(Tone::Path, right_aligned(r.0) + "  "@), (Tone::Plain, r.1)],
        );
        let mut lines: Vec<Line> = Vec::new();
        put_text(&mut lines, Tone::Dim, lead);
        put_text(&mut lines, Tone::Plain, "");
        let ghost start = lines_view(lines@);
        assert(start =~= seq![seq![(Tone::Dim, h.lead)], plain(""@)]);
        let mut i: usize = 0;
        assert(start + all.take(0) =~= start);
        assert(keys_view(rows@).len() == rows@.len());
        while i < rows.len()
            invariant
                keys_view(rows@) == h.rows,
                all == h.rows.map_values(
                    |r: (Seq<char>, Seq<char>)|
                        seq![(Tone::Path, right_aligned(r.0) + "  "@), (Tone::Plain, r.1)],
                ),
                0 <= i <= rows@.len(),
                rows@.len() == h.rows.len(),
                lines_view(lines@) == start + all.take(i as int),
            decreases rows@.len() - i,
        {
            let (k, m) = rows[i];
            assert(keys_view(rows@)[i as int] == (k@, m@));
            let l = Line::new().with(Tone::Path, align_right(k).concat("  ")).with(
                Tone::Plain,
                m.to_owned(),
            );
            assert(l@ =~= all[i as int]);
            put(&mut lines, l);
            i += 1;
            assert(all.take(i as int) =~= all.take(i - 1).push(all[i - 1]));
            assert(lines_view(lines@) =~= start + all.take(i as int));
        }
        assert(all.take(i as int) =~= all);
        (" ".to_owned().concat(title).concat(" — any key closes "), lines)
    }
}

/// A place on the screen.
#[derive(Clone, Copy, PartialEq, Eq, Structural, Debug)]
pub struct Area {
    pub x: u16,
    pub y: u16,
    pub width: u16,
    pub height: u16,
}

impl Area {
    /// The area lies within this one.
    pub open spec fn holds(self, a: Area) -> bool {
        &&& self.x <= a.x
        &&& self.y <= a.y
        &&& a.x + a.width <= self.x + self.width
        &&& a.y + a.height <= self.y + self.height
    }
}

/// Where the help goes: centred, and no larger than the screen — it must never be the
/// thing that overflows.
pub fn help_area(lines: usize, screen: Area) -> (a: Area)
    requires
        screen.x + screen.width <= u16::MAX,
        screen.y + screen.height <= u16::MAX,
    ensures
        screen.holds(a),
        a.width == if screen.width < 2 {
            0
        } else if screen.width - 2 < 64 {
            screen.width - 2
        } else {
            64
        },
        a.height == if lines + 2 < screen.height {
            lines + 2
        } else {
            screen.height as int
        },
        a.x == screen.x + (screen.width - a.width) / 2,
        a.y == screen.y + (screen.height - a.height) / 2,
{
    let width: u16 = if screen.width < 2 {
        0
    } else if screen.width - 2 < 64 {
        screen.width - 2
    } else {
        64
    };
    let height: u16 = if lines < screen.height as usize && lines + 2 < screen.height as usize {
        (lines + 2) as u16
    } else {
        screen.height
    };
    Area {
        x: screen.x + (screen.width - width) / 2,
        y: screen.y + (screen.height - height) / 2,
        width,
        height,
    }
}

// ── the status line ─────────────────────────────────────────────────────────

/// The one line of keys that is always on screen. It fits eighty columns; the rest is
/// one key away.
pub open spec fn spec_hint() -> Seq<char> {
    "↑↓ nav · ←→ pane · ⏎ apply · ? help · q quit"@
}

/// See [`spec_hint`].
pub fn hint() -> (s: &'static str)
    ensures
        s@ == spec_hint(),
{
    "↑↓ nav · ←→ pane · ⏎ apply · ? help · q quit"
}

/// A character in lower case, where it is one of the twenty-six letters.
pub open spec fn lower_char(c: char) -> char {
    if 'A' <= c && c <= 'Z' {
        ((c as u8) + 32) as char
    } else {
        c
    }
}

/// A text in lower case.
pub open spec fn lower(s: Seq<char>) -> Seq<char> {
    s.map_values(|c: char| lower_char(c))
}

fn to_lower(s: &str) -> (r: String)
    ensures
        r@ == lower(s@),
{
    let v = text::chars_of(s);
    let mut r = String::new();
    let mut i: usize = 0;
    assert(r@ =~= lower(s@).take(0));
    while i < v.len()
        invariant
            v@ == s@,
            0 <= i <= v@.len(),
            r@ == lower(s@).take(i as int),
        decreases v@.len() - i,
    {
        let c = v[i];
        if 'A' <= c && c <= 'Z' {
            r.push(((c as u8) + 32) as char);
        } else {
            r.push(c);
        }
        i += 1;
        assert(lower(s@).take(i as int) =~= lower(s@).take(i - 1).push(lower(s@)[i - 1]));
    }
    assert(lower(s@).take(i as int) =~= lower(s@));
    r
}

/// The tone of the status line, by kind, so outcomes read at a glance.
pub open spec fn tone_of(status: Seq<char>, pending: bool) -> Tone {
    let low = lower(status);
    if pending {
        Tone::Armed
    } else if text::holds(low, "conflict"@) || text::holds(low, "error"@) || text::holds(
        low,
        "can't"@,
    ) || text::holds(low, "cannot"@) || text::holds(low, "needs"@) || text::holds(low, "failed"@) {
        Tone::Bad
    } else if text::holds(low, "now at"@) || text::holds(low, "clean, would"@) {
        Tone::Good
    } else {
        Tone::Plain
    }
}

/// See [`tone_of`].
pub fn status_tone(status: &str, pending: bool) -> (t: Tone)
    ensures
        t == tone_of(status@, pending),
{
    if pending {
        return Tone::Armed;
    }
    let low = to_lower(status);
    if text::contains(&low, "conflict") || text::contains(&low, "error") || text::contains(
        &low,
        "can't",
    ) || text::contains(&low, "cannot") || text::contains(&low, "needs") || text::contains(
        &low,
        "failed",
    ) {
        Tone::Bad
    } else if text::contains(&low, "now at") || text::contains(&low, "clean, would") {
        Tone::Good
    } else {
        Tone::Plain
    }
}

impl AppV {
    /// The prompt takes over the STATUS line only — everything above stays put.
    pub open spec fn status_line(self) -> LineV {
        match self.input {
            Some(p) => seq![
                (Tone::Path, p.label + ": "@),
                (Tone::Plain, p.text + "▏"@),
                (Tone::Dim, "   ⏎ ok · Esc cancel"@),
            ],
            None => seq![(tone_of(self.status, self.pending_apply), self.status)],
        }
    }

    /// The lines at the bottom.
    pub open spec fn status_shown(self) -> Seq<LineV> {
        seq![
            seq![(Tone::Dim, spec_hint())],
            seq![(Tone::Dim, self.context_line())],
            self.status_line(),
        ]
    }
}

impl App {
    /// The lines at the bottom: the keys, what the cursor is on, and the status or the
    /// prompt.
    pub fn render_status(&self) -> (v: Vec<Line>)
        requires
            self@.wf(),
        ensures
            lines_view(v@) == self@.status_shown(),
    {
        let mut v: Vec<Line> = Vec::new();
        put_text(&mut v, Tone::Dim, hint());
        put(&mut v, Line::toned(Tone::Dim, self.context_line()));
        let last = match &self.input {
            Some(p) => {
                let l = Line::new().with(Tone::Path, p.label.to_owned().concat(": ")).with(
                    Tone::Plain,
                    p.text.clone().concat("▏"),
                ).with(Tone::Dim, "   ⏎ ok · Esc cancel".to_owned());
                assert(l@ =~= self@.status_line());
                l
            },
            None => Line::toned(
                status_tone(&self.status, self.pending_apply),
                self.status.clone(),
            ),
        };
        put(&mut v, last);
        assert(lines_view(v@) =~= self@.status_shown());
        v
    }
}

// ── the right column ────────────────────────────────────────────────────────

/// What the right column shows.
#[derive(Clone, Copy, PartialEq, Eq, Structural, Debug)]
pub enum Column {
    /// The diff alone.
    Diff,
    /// The hunk list alone.
    Hunks,
    /// The hunk list, and the diff below.
    HunksAndDiff,
    /// The file list, and the diff below.
    FilesAndDiff,
}

impl AppV {
    /// The column is SPLIT, not swapped: the hunk that is routed and the commit that it
    /// goes to are both on screen, whichever has focus. An empty hunk list and the diff
    /// do not share it: one of them has nothing to show.
    pub open spec fn column(self) -> Column {
        if self.source == Source::Files {
            Column::FilesAndDiff
        } else if self.flat.len() > 0 {
            Column::HunksAndDiff
        } else if self.focus == Pane::Commits {
            Column::Diff
        } else {
            Column::Hunks
        }
    }
}

impl App {
    /// What the right column shows.
    pub fn column(&self) -> (c: Column)
        ensures
            c == self@.column(),
    {
        if self.source == Source::Files {
            Column::FilesAndDiff
        } else if self.flat.len() > 0 {
            Column::HunksAndDiff
        } else if self.focus == Pane::Commits {
            Column::Diff
        } else {
            Column::Hunks
        }
    }
}

} // verus!
