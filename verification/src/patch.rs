//! Hunks: the contiguous change regions of a file's diff, and a file with only
//! some of them applied. This is what lets *some* of a file's changes be folded
//! into a commit while the rest stays behind.

use crate::engine;
use crate::oid::Oid;
use crate::store;
use crate::store::{Ask, AskV, Known, Query, QueryV, Seen};
use crate::text;
use crate::{Error, ErrorV};
use vstd::prelude::*;

verus! {

// ── lines ───────────────────────────────────────────────────────────────────

/// The texts one after another.
pub open spec fn flat(parts: Seq<Seq<char>>) -> Seq<char>
    decreases parts.len(),
{
    if parts.len() == 0 {
        Seq::empty()
    } else {
        flat(parts.drop_last()) + parts.last()
    }
}

/// `s` cut after every newline.
pub open spec fn pieces(s: Seq<char>) -> Seq<Seq<char>>
    decreases s.len(),
{
    if s.len() == 0 {
        Seq::empty()
    } else {
        let front = pieces(s.drop_last());
        if s.len() >= 2 && s[s.len() - 2] != '\n' {
            front.drop_last().push(front.last().push(s.last()))
        } else {
            front.push(seq![s.last()])
        }
    }
}

/// The lines of a text, each with its newline. A text without characters is one
/// empty line.
pub open spec fn lines_of(s: Seq<char>) -> Seq<Seq<char>> {
    if s.len() == 0 {
        seq![Seq::empty()]
    } else {
        pieces(s)
    }
}

/// The lines of a text, each with its newline.
pub fn split_keep_newlines(s: &str) -> (v: Vec<String>)
    ensures
        text::texts(v@) == lines_of(s@),
{
    let cs = text::chars_of(s);
    let mut v: Vec<String> = Vec::new();
    let mut cur = String::new();
    let mut i: usize = 0;
    while i < cs.len()
        invariant
            0 <= i <= cs@.len(),
            cs@ == s@,
            cur@.len() == 0 <==> (i == 0 || cs@[i - 1] == '\n'),
            pieces(cs@.take(i as int)) == if cur@.len() == 0 {
                text::texts(v@)
            } else {
                text::texts(v@).push(cur@)
            },
        decreases cs@.len() - i,
    {
        let c = cs[i];
        let ghost before = text::texts(v@);
        let ghost was = cur@;
        proof {
            assert(cs@.take(i + 1).drop_last() =~= cs@.take(i as int));
            assert(cs@.take(i + 1).last() == c);
            if was.len() == 0 {
                assert(was.push(c) =~= seq![c]);
            } else {
                assert(before.push(was).drop_last() =~= before);
            }
        }
        cur.push(c);
        if c == '\n' {
            v.push(cur);
            cur = String::new();
            assert(text::texts(v@) =~= before.push(was.push(c)));
        }
        i += 1;
    }
    assert(cs@.take(i as int) =~= cs@);
    if !cur.as_str().is_empty() || v.len() == 0 {
        let ghost before = text::texts(v@);
        v.push(cur);
        assert(text::texts(v@) =~= before.push(v@.last()@));
        proof {
            lemma_pieces(s@);
            if s@.len() == 0 {
                assert(v@.last()@ =~= Seq::<char>::empty());
            }
        }
        assert(text::texts(v@) =~= lines_of(s@));
    }
    v
}

/// Put together again, the lines of a text are the text.
pub proof fn lines_make_the_text(s: Seq<char>)
    ensures
        flat(lines_of(s)) == s,
        lines_of(s).len() > 0,
{
    if s.len() > 0 {
        lemma_pieces(s);
    } else {
        let none = Seq::<Seq<char>>::empty();
        assert(lines_of(s).drop_last() =~= none);
        assert(flat(none) =~= Seq::<char>::empty());
        assert(flat(lines_of(s)) =~= s);
    }
}

proof fn lemma_pieces(s: Seq<char>)
    ensures
        flat(pieces(s)) == s,
        s.len() > 0 ==> pieces(s).len() > 0,
    decreases s.len(),
{
    if s.len() > 0 {
        lemma_pieces(s.drop_last());
        let front = pieces(s.drop_last());
        assert(s =~= s.drop_last().push(s.last()));
        if s.len() >= 2 && s[s.len() - 2] != '\n' {
            let p = front.drop_last().push(front.last().push(s.last()));
            assert(p.drop_last() =~= front.drop_last());
            assert(flat(p) =~= flat(front).push(s.last()));
        } else {
            let p = front.push(seq![s.last()]);
            assert(p.drop_last() =~= front);
            assert(flat(p) =~= s);
        }
    }
}

// ── hunks ───────────────────────────────────────────────────────────────────

/// One contiguous change region in a file diff.
#[derive(Debug)]
pub struct Hunk {
    /// The `@@ ... @@` header line, for display.
    pub header: String,
    /// 1-based first line in the OLD file this hunk covers.
    pub old_start: usize,
    /// Number of OLD lines the hunk replaces.
    pub old_lines: usize,
    /// The hunk's own lines for display: `+`, `-` or a blank, and the text.
    pub lines: Vec<(char, String)>,
    /// The replacement lines (context and additions), each with its newline.
    new_content: Vec<String>,
    /// OLD line numbers actually removed or modified (no context), for blame.
    changed_old: Vec<usize>,
    /// For each added line, the OLD line it follows within the hunk.
    anchors: Vec<usize>,
    added: usize,
    removed: usize,
}

/// A [`Hunk`] by its contents.
#[verifier::ext_equal]
pub struct HunkV {
    pub header: Seq<char>,
    pub old_start: usize,
    pub old_lines: usize,
    pub lines: Seq<(char, Seq<char>)>,
    pub new_content: Seq<Seq<char>>,
    pub changed_old: Seq<usize>,
    pub anchors: Seq<usize>,
    pub added: nat,
    pub removed: nat,
}

/// Marked lines by their contents.
pub open spec fn marked(v: Seq<(char, String)>) -> Seq<(char, Seq<char>)> {
    v.map_values(|l: (char, String)| (l.0, l.1@))
}

impl View for Hunk {
    type V = HunkV;

    closed spec fn view(&self) -> HunkV {
        HunkV {
            header: self.header@,
            old_start: self.old_start,
            old_lines: self.old_lines,
            lines: marked(self.lines@),
            new_content: text::texts(self.new_content@),
            changed_old: self.changed_old@,
            anchors: self.anchors@,
            added: self.added as nat,
            removed: self.removed as nat,
        }
    }
}

/// The hunks by their contents.
pub open spec fn views(h: Seq<Hunk>) -> Seq<HunkV> {
    h.map_values(|h: Hunk| h@)
}

impl Hunk {
    pub fn added(&self) -> (n: usize)
        ensures
            n == self@.added,
    {
        self.added
    }

    pub fn removed(&self) -> (n: usize)
        ensures
            n == self@.removed,
    {
        self.removed
    }

    /// 1-based first line in the OLD file this hunk covers.
    pub fn old_start(&self) -> (n: usize)
        ensures
            n == self@.old_start,
    {
        self.old_start
    }

    /// Number of OLD lines the hunk covers.
    pub fn old_lines(&self) -> (n: usize)
        ensures
            n == self@.old_lines,
    {
        self.old_lines
    }

    /// OLD line numbers this hunk actually changes (not the context span).
    pub fn changed_old_lines(&self) -> (v: &Vec<usize>)
        ensures
            v@ == self@.changed_old,
    {
        &self.changed_old
    }

    /// The header.
    pub fn header(&self) -> (s: &String)
        ensures
            s@ == self@.header,
    {
        &self.header
    }

    /// The lines for display.
    pub fn shown(&self) -> (v: &Vec<(char, String)>)
        ensures
            marked(v@) == self@.lines,
    {
        &self.lines
    }

    /// The OLD lines that the hunk is to be blamed on: those it changes; for a
    /// pure insertion, those it follows; failing that, its first line.
    pub fn blamed_lines(&self) -> (v: Vec<usize>)
        ensures
            v@ == blamed(self@),
    {
        if self.changed_old.len() > 0 {
            let v = self.changed_old.clone();
            assert(v@ =~= self.changed_old@);
            v
        } else if self.anchors.len() > 0 {
            let v = self.anchors.clone();
            assert(v@ =~= self.anchors@);
            v
        } else if self.old_start > 0 {
            let mut v: Vec<usize> = Vec::new();
            v.push(self.old_start);
            assert(v@ =~= seq![self.old_start]);
            v
        } else {
            Vec::new()
        }
    }
}

/// See [`Hunk::blamed_lines`].
pub open spec fn blamed(h: HunkV) -> Seq<usize> {
    if h.changed_old.len() > 0 {
        h.changed_old
    } else if h.anchors.len() > 0 {
        h.anchors
    } else if h.old_start > 0 {
        seq![h.old_start]
    } else {
        Seq::empty()
    }
}

// ── reading a diff ──────────────────────────────────────────────────────────

/// A line of a diff as it is read: its mark, its number in the old file, its bytes.
pub type RawLine = (char, Option<u32>, Seq<u8>);

/// A hunk as it is read: its header, its first old line, how many old lines it
/// covers, and its lines.
pub type RawHunk = (Seq<u8>, u32, u32, Seq<RawLine>);

/// `git2::Patch`, the diff of two buffers.
#[verifier::external_type_specification]
#[verifier::external_body]
pub struct ExPatch<'buffers>(git2::Patch<'buffers>);

/// The hunks that a `git2::Patch` holds, in order.
pub uninterp spec fn patch_hunks(p: git2::Patch<'_>) -> Seq<
    (Seq<u8>, u32, u32, Seq<(char, Option<u32>, Seq<u8>)>),
>;

/// What `git2::Patch::from_buffers` makes of `old` and `new` with `context` lines
/// around each change: the hunks of the diff, or the text of its error.
pub uninterp spec fn diff_of(old: Seq<u8>, new: Seq<u8>, context: u32) -> Result<
    Seq<(Seq<u8>, u32, u32, Seq<(char, Option<u32>, Seq<u8>)>)>,
    Seq<char>,
>;

/// How many of the lines are lines of the old file: those that are removed, and the
/// context.
pub open spec fn count_old(l: Seq<RawLine>) -> nat
    decreases l.len(),
{
    if l.len() == 0 {
        0
    } else {
        count_old(l.drop_last()) + if l.last().0 == '-' || l.last().0 == ' ' {
            1nat
        } else {
            0nat
        }
    }
}

/// A hunk numbers its lines: those of the old file count up from the first that it
/// covers, and it covers as many as there are of them. Lines count from one.
pub open spec fn numbered(h: RawHunk) -> bool {
    &&& forall|j: int|
        0 <= j < h.3.len() && ((#[trigger] h.3[j]).0 == '-' || h.3[j].0 == ' ') ==> (
        h.3[j].1 matches Some(n) && n == h.1 + count_old(h.3.take(j)))
    &&& h.2 == count_old(h.3)
    &&& h.2 > 0 ==> h.1 > 0
}

/// Each hunk ends before the next begins.
pub open spec fn spaced(hunks: Seq<RawHunk>) -> bool {
    forall|i: int, j: int|
        0 <= i < j < hunks.len() ==> (#[trigger] hunks[i]).1 + hunks[i].2 <= (
        #[trigger] hunks[j]).1
}

/// The largest file that is diffed line by line.
pub const DIFFED: usize = 0x20000000;

/// A file that is diffed line by line: text without a NUL, and not too large.
pub open spec fn diffable(b: Seq<u8>) -> bool {
    vstd::utf8::valid_utf8(b) && !b.contains(0) && b.len() <= DIFFED
}

/// Between two files that are diffed line by line, the hunks describe the change: see
/// [`describes`].
pub open spec fn faithful(old: Seq<u8>, new: Seq<u8>, hunks: Seq<HunkV>) -> bool {
    diffable(old) && diffable(new) ==> describes(
        pieces(vstd::utf8::decode_utf8(old)),
        pieces(vstd::utf8::decode_utf8(new)),
        hunks,
        0,
        0,
        0,
    )
}

/// `git2::Patch::from_buffers`, with `DiffOptions::context_lines` set: the diff of
/// the two buffers. No repository and no configuration goes into it, so (lack of
/// memory aside) what comes out, an error too, is a function of the arguments. Equal
/// buffers have no hunks. Whatever the bytes are, every hunk numbers its lines, and ends
/// before the next begins. And where there is context, the hunks between two files that
/// are diffed line by line describe the change.
#[verifier::external_body]
fn from_buffers<'a>(old: &'a [u8], new: &'a [u8], context: u32) -> (r: Result<
    git2::Patch<'a>,
    String,
>)
    ensures
        match (r, diff_of(old@, new@, context)) {
            (Ok(p), Ok(h)) => patch_hunks(p) == h,
            (Err(m), Err(t)) => m@ == t,
            _ => false,
        },
        r matches Ok(p) ==> (old@ == new@ ==> patch_hunks(p).len() == 0),
        r matches Ok(p) ==> forall|i: int|
            0 <= i < patch_hunks(p).len() ==> numbered(#[trigger] patch_hunks(p)[i]),
        r matches Ok(p) ==> spaced(patch_hunks(p)),
        r matches Ok(p) ==> (context > 0 ==> faithful(
            old@,
            new@,
            patch_hunks(p).map_values(|h: RawHunk| parsed(h)),
        )),
{
    let mut opts = git2::DiffOptions::new();
    opts.context_lines(context);
    git2::Patch::from_buffers(old, None, new, None, Some(&mut opts)).map_err(|e| e.to_string())
}

/// `git2::Patch::num_hunks`: how many hunks there are.
#[verifier::external_body]
fn num_hunks(p: &git2::Patch<'_>) -> (n: usize)
    ensures
        n == patch_hunks(*p).len(),
{
    p.num_hunks()
}

/// `git2::Patch::hunk`: the header, first old line, number of old lines and number
/// of lines of the hunk at `i`; there is none for an index past the last hunk only.
#[verifier::external_body]
fn hunk(p: &git2::Patch<'_>, i: usize) -> (r: Option<(Vec<u8>, u32, u32, usize)>)
    ensures
        r is Some <==> i < patch_hunks(*p).len(),
        r matches Some(h) ==> h.0@ == patch_hunks(*p)[i as int].0 && h.1 == patch_hunks(
            *p,
        )[i as int].1 && h.2 == patch_hunks(*p)[i as int].2 && h.3 == patch_hunks(
            *p,
        )[i as int].3.len(),
{
    p.hunk(i).ok().map(|(h, n)| (h.header().to_vec(), h.old_start(), h.old_lines(), n))
}

/// `git2::Patch::line_in_hunk`: the mark, old line number and content of the line
/// at `j` of the hunk at `i`; there is none for an index past the last line only.
#[verifier::external_body]
fn line_in_hunk(p: &git2::Patch<'_>, i: usize, j: usize) -> (r: Option<
    (char, Option<u32>, Vec<u8>),
>)
    ensures
        i < patch_hunks(*p).len() ==> (r is Some <==> j < patch_hunks(*p)[i as int].3.len()),
        i >= patch_hunks(*p).len() ==> r is None,
        r matches Some(l) ==> l.0 == patch_hunks(*p)[i as int].3[j as int].0 && l.1 == patch_hunks(
            *p,
        )[i as int].3[j as int].1 && l.2@ == patch_hunks(*p)[i as int].3[j as int].2,
{
    p.line_in_hunk(i, j).ok().map(|l| (l.origin(), l.old_lineno(), l.content().to_vec()))
}

/// `s` without the newlines at its end.
pub open spec fn no_newline(s: Seq<char>) -> Seq<char>
    decreases s.len(),
{
    if s.len() > 0 && s.last() == '\n' {
        no_newline(s.drop_last())
    } else {
        s
    }
}

/// Lines with one of the three marks of a change: context, addition, removal.
pub open spec fn shown_lines(l: Seq<RawLine>) -> Seq<(char, Seq<char>)>
    decreases l.len(),
{
    if l.len() == 0 {
        Seq::empty()
    } else {
        let front = shown_lines(l.drop_last());
        let (mark, _, bytes) = l.last();
        if mark == '+' || mark == ' ' || mark == '-' {
            front.push((mark, no_newline(text::lossy(bytes))))
        } else {
            front
        }
    }
}

/// The lines of the new file: context and additions.
pub open spec fn new_lines(l: Seq<RawLine>) -> Seq<Seq<char>>
    decreases l.len(),
{
    if l.len() == 0 {
        Seq::empty()
    } else {
        let front = new_lines(l.drop_last());
        let (mark, _, bytes) = l.last();
        if mark == '+' || mark == ' ' {
            front.push(text::lossy(bytes))
        } else {
            front
        }
    }
}

/// The numbers of the old lines that are removed.
pub open spec fn removed_lines(l: Seq<RawLine>) -> Seq<usize>
    decreases l.len(),
{
    if l.len() == 0 {
        Seq::empty()
    } else {
        let front = removed_lines(l.drop_last());
        match l.last() {
            ('-', Some(n), _) => front.push(n as usize),
            _ => front,
        }
    }
}

/// How many lines bear this mark.
pub open spec fn count_marked(l: Seq<RawLine>, mark: char) -> nat
    decreases l.len(),
{
    if l.len() == 0 {
        0
    } else {
        count_marked(l.drop_last(), mark) + if l.last().0 == mark {
            1nat
        } else {
            0nat
        }
    }
}

/// The last old line number that is named.
pub open spec fn last_old(l: Seq<RawLine>) -> Option<usize>
    decreases l.len(),
{
    if l.len() == 0 {
        None
    } else {
        match l.last() {
            (_, Some(n), _) => Some(n as usize),
            _ => last_old(l.drop_last()),
        }
    }
}

/// For each added line, the old line before it.
pub open spec fn followed_lines(l: Seq<RawLine>) -> Seq<usize>
    decreases l.len(),
{
    if l.len() == 0 {
        Seq::empty()
    } else {
        let front = followed_lines(l.drop_last());
        match (l.last().0, last_old(l.drop_last())) {
            ('+', Some(n)) => front.push(n),
            _ => front,
        }
    }
}

/// A hunk from what was read of it.
pub open spec fn parsed(h: RawHunk) -> HunkV {
    HunkV {
        header: text::trimmed_end(text::lossy(h.0)),
        old_start: h.1 as usize,
        old_lines: h.2 as usize,
        lines: shown_lines(h.3),
        new_content: new_lines(h.3),
        changed_old: removed_lines(h.3),
        anchors: followed_lines(h.3),
        added: count_marked(h.3, '+'),
        removed: count_marked(h.3, '-'),
    }
}

/// `s` without the newlines at its end.
pub(crate) fn chomp(s: &str) -> (r: String)
    ensures
        r@ == no_newline(s@),
{
    let v = text::chars_of(s);
    let mut n: usize = v.len();
    assert(v@.subrange(0, n as int) =~= v@);
    while n > 0 && v[n - 1] == '\n'
        invariant
            0 <= n <= v@.len(),
            no_newline(v@.subrange(0, n as int)) == no_newline(v@),
        decreases n,
    {
        assert(v@.subrange(0, n as int).drop_last() =~= v@.subrange(0, n - 1));
        n -= 1;
    }
    text::string_of(&v, 0, n)
}

/// Lines as they are read, by their contents.
pub open spec fn raw_lines(v: Seq<(char, Option<u32>, Vec<u8>)>) -> Seq<RawLine> {
    v.map_values(|l: (char, Option<u32>, Vec<u8>)| (l.0, l.1, l.2@))
}

/// The hunk with this header, first old line and number of old lines, and these
/// lines: each its mark, its number in the old file, its bytes.
pub fn hunk_of(
    header: &[u8],
    old_start: u32,
    old_lines: u32,
    raw: &Vec<(char, Option<u32>, Vec<u8>)>,
) -> (h: Hunk)
    ensures
        h@ == parsed((header@, old_start, old_lines, raw_lines(raw@))),
{
    let ghost all = raw_lines(raw@);
    let mut lines: Vec<(char, String)> = Vec::new();
    let mut new_content: Vec<String> = Vec::new();
    let mut changed_old: Vec<usize> = Vec::new();
    let mut anchors: Vec<usize> = Vec::new();
    let mut added: usize = 0;
    let mut removed: usize = 0;
    let mut above: Option<usize> = None;
    let mut j: usize = 0;
    while j < raw.len()
        invariant
            all == raw_lines(raw@),
            0 <= j <= raw@.len(),
            added <= j,
            removed <= j,
            marked(lines@) == shown_lines(all.take(j as int)),
            text::texts(new_content@) == new_lines(all.take(j as int)),
            changed_old@ == removed_lines(all.take(j as int)),
            anchors@ == followed_lines(all.take(j as int)),
            added == count_marked(all.take(j as int), '+'),
            removed == count_marked(all.take(j as int), '-'),
            above == last_old(all.take(j as int)),
        decreases raw@.len() - j,
    {
        let mark = raw[j].0;
        let old_lineno = raw[j].1;
        proof {
            assert(all.take(j + 1).drop_last() =~= all.take(j as int));
            assert(all.take(j + 1).last() == all[j as int]);
        }
        let ghost l0 = marked(lines@);
        let ghost n0 = text::texts(new_content@);
        let text = text::from_utf8_lossy(&raw[j].2);
        if mark == '+' || mark == ' ' || mark == '-' {
            lines.push((mark, chomp(&text)));
            assert(marked(lines@) =~= l0.push((mark, no_newline(text@))));
        }
        if mark == '+' {
            added += 1;
            if let Some(a) = above {
                anchors.push(a);
            }
        }
        if mark == '-' {
            removed += 1;
            if let Some(o) = old_lineno {
                changed_old.push(o as usize);
            }
        }
        if mark == '+' || mark == ' ' {
            let ghost t = text@;
            new_content.push(text);
            assert(text::texts(new_content@) =~= n0.push(t));
        }
        if let Some(o) = old_lineno {
            above = Some(o as usize);
        }
        j += 1;
    }
    assert(all.take(j as int) =~= all);
    let header = text::trim_end(&text::from_utf8_lossy(header));
    Hunk {
        header,
        old_start: old_start as usize,
        old_lines: old_lines as usize,
        lines,
        new_content,
        changed_old,
        anchors,
        added,
        removed,
    }
}

/// Read the hunk at `i`.
fn read_hunk(p: &git2::Patch<'_>, i: usize) -> (r: Option<Hunk>)
    ensures
        r is Some <==> i < patch_hunks(*p).len(),
        r matches Some(h) ==> h@ == parsed(patch_hunks(*p)[i as int]),
{
    let ghost raw = patch_hunks(*p)[i as int];
    let (header, old_start, old_lines, n) = match hunk(p, i) {
        Some(h) => h,
        None => {
            return None;
        },
    };
    let mut lines: Vec<(char, Option<u32>, Vec<u8>)> = Vec::new();
    let mut j: usize = 0;
    while j < n
        invariant
            i < patch_hunks(*p).len(),
            raw == patch_hunks(*p)[i as int],
            n == raw.3.len(),
            0 <= j <= n,
            raw_lines(lines@) == raw.3.take(j as int),
        decreases n - j,
    {
        let ghost before = raw_lines(lines@);
        if let Some(l) = line_in_hunk(p, i, j) {
            lines.push(l);
            assert(raw_lines(lines@) =~= before.push(raw.3[j as int]));
        }
        j += 1;
        assert(raw.3.take(j as int) =~= raw.3.take(j - 1).push(raw.3[j - 1]));
    }
    assert(raw.3.take(j as int) =~= raw.3);
    Some(hunk_of(&header, old_start, old_lines, &lines))
}

/// How many lines of context surround a change.
pub const CONTEXT: u32 = 3;

/// Every hunk of a diff.
pub fn read_patch(p: &git2::Patch<'_>) -> (v: Vec<Hunk>)
    ensures
        views(v@) == patch_hunks(*p).map_values(|h: RawHunk| parsed(h)),
{
    let ghost all = patch_hunks(*p).map_values(|h: RawHunk| parsed(h));
    let n: usize = num_hunks(p);
    let mut v: Vec<Hunk> = Vec::new();
    let mut i: usize = 0;
    while i < n
        invariant
            n == patch_hunks(*p).len(),
            all == patch_hunks(*p).map_values(|h: RawHunk| parsed(h)),
            0 <= i <= n,
            views(v@) == all.take(i as int),
        decreases n - i,
    {
        let ghost before = views(v@);
        if let Some(h) = read_hunk(p, i) {
            v.push(h);
            assert(views(v@) =~= before.push(h@));
        }
        i += 1;
        assert(all.take(i as int) =~= all.take(i - 1).push(all[i - 1]));
    }
    assert(all.take(i as int) =~= all);
    v
}

/// The hunks of the diff from `old` to `new`, or why it cannot be made.
pub open spec fn hunks_of(old: Seq<u8>, new: Seq<u8>) -> Result<Seq<HunkV>, Seq<char>> {
    match diff_of(old, new, CONTEXT) {
        Ok(h) => Ok(h.map_values(|h: RawHunk| parsed(h))),
        Err(m) => Err(m),
    }
}

/// What holds of a hunk of a diff: it changes as many old lines as it removes. They
/// rise, and all are among the lines that it covers.
pub open spec fn well_placed(h: HunkV) -> bool {
    &&& h.removed == h.changed_old.len()
    &&& h.removed <= h.old_lines
    &&& h.old_lines > 0 ==> h.old_start > 0
    &&& forall|a: int|
        0 <= a < h.changed_old.len() ==> h.old_start <= #[trigger] h.changed_old[a] < h.old_start
            + h.old_lines
    &&& forall|a: int, b: int|
        0 <= a < b < h.changed_old.len() ==> #[trigger] h.changed_old[a] < #[trigger] h.changed_old[b]
}

/// What holds of the hunks of a diff: each of them is well placed and ends before the
/// next begins; equal contents have none; and they describe the change.
pub open spec fn sound(old: Seq<u8>, new: Seq<u8>, hunks: Seq<HunkV>) -> bool {
    &&& forall|i: int| 0 <= i < hunks.len() ==> well_placed(#[trigger] hunks[i])
    &&& forall|i: int, j: int|
        0 <= i < j < hunks.len() ==> (#[trigger] hunks[i]).old_start + hunks[i].old_lines <= (
        #[trigger] hunks[j]).old_start
    &&& old == new ==> hunks.len() == 0
    &&& faithful(old, new, hunks)
}

proof fn lemma_numbers(l: Seq<RawLine>, start: int)
    requires
        forall|j: int|
            0 <= j < l.len() && ((#[trigger] l[j]).0 == '-' || l[j].0 == ' ') ==> (
            l[j].1 matches Some(n) && n == start + count_old(l.take(j))),
    ensures
        removed_lines(l).len() == count_marked(l, '-'),
        removed_lines(l).len() <= count_old(l),
        forall|a: int|
            0 <= a < removed_lines(l).len() ==> start <= #[trigger] removed_lines(l)[a] < start
                + count_old(l),
        forall|a: int, b: int|
            0 <= a < b < removed_lines(l).len() ==> #[trigger] removed_lines(l)[a]
                < #[trigger] removed_lines(l)[b],
    decreases l.len(),
{
    if l.len() > 0 {
        let front = l.drop_last();
        assert forall|j: int|
            0 <= j < front.len() && ((#[trigger] front[j]).0 == '-' || front[j].0
                == ' ') implies (front[j].1 matches Some(n) && n == start + count_old(
            front.take(j),
        )) by {
            assert(l[j] == front[j]);
            assert(l.take(j) =~= front.take(j));
        }
        lemma_numbers(front, start);
        assert(l[l.len() - 1] == l.last());
        assert(l.take(l.len() - 1) =~= front);
    }
}

/// A diff that was tried, by its contents: its hunks, or why it cannot be made.
pub open spec fn diff_view(r: Result<Vec<Hunk>, String>) -> Result<Seq<HunkV>, Seq<char>> {
    match r {
        Ok(v) => Ok(views(v@)),
        Err(m) => Err(m@),
    }
}

/// The hunks of the diff between the `old` and `new` blobs, or why it cannot be made.
pub fn diff(old: &[u8], new: &[u8]) -> (r: Result<Vec<Hunk>, String>)
    ensures
        diff_view(r) == hunks_of(old@, new@),
        diff_view(r) matches Ok(v) ==> sound(old@, new@, v),
{
    match from_buffers(old, new, CONTEXT) {
        Ok(p) => {
            let v = read_patch(&p);
            proof {
                let raw = patch_hunks(p);
                let hs = views(v@);
                assert forall|i: int| 0 <= i < hs.len() implies well_placed(
                    #[trigger] hs[i],
                ) by {
                    assert(hs[i] == parsed(raw[i]));
                    assert(numbered(raw[i]));
                    lemma_numbers(raw[i].3, raw[i].1 as int);
                }
                assert forall|i: int, j: int| 0 <= i < j < hs.len() implies (
                #[trigger] hs[i]).old_start + hs[i].old_lines <= (#[trigger] hs[j]).old_start by {
                    assert(hs[i] == parsed(raw[i]) && hs[j] == parsed(raw[j]));
                    assert(raw[i].1 + raw[i].2 <= raw[j].1);
                }
            }
            Ok(v)
        },
        Err(m) => Err(m),
    }
}

/// Parse the diff between the `old` and `new` blobs into hunks. It fails exactly where
/// the diff itself cannot be made.
pub fn hunks(old: &[u8], new: &[u8]) -> (r: Result<Vec<Hunk>, Error>)
    ensures
        match (r, hunks_of(old@, new@)) {
            (Ok(v), Ok(h)) => views(v@) == h && sound(old@, new@, h),
            (Err(e), Err(m)) => e@ == ErrorV::Git(m),
            _ => false,
        },
{
    match diff(old, new) {
        Ok(v) => Ok(v),
        Err(m) => Err(Error::Git(m)),
    }
}

// ── applying some of the hunks ──────────────────────────────────────────────

/// The number `n`, but no more than `max`.
pub open spec fn at_most(n: int, max: int) -> int {
    if n > max {
        max
    } else {
        n
    }
}

/// Where in the old lines the hunk begins, for a reader who stands at `pos`.
pub open spec fn begins_at(lines: Seq<Seq<char>>, h: HunkV, pos: int) -> int {
    let start = if h.old_start > 0 {
        h.old_start - 1
    } else {
        0
    };
    if pos < start {
        at_most(start, lines.len() as int)
    } else {
        pos
    }
}

/// Where in the old lines the hunk ends, for a reader who stands at `pos`.
pub open spec fn ends_at(lines: Seq<Seq<char>>, h: HunkV, pos: int) -> int {
    at_most(begins_at(lines, h, pos) + h.old_lines, lines.len() as int)
}

/// From old line `pos` on, with the hunks `hunks[i..]`: the lines before the hunk,
/// then its new content where it is selected and the old lines where it is not,
/// and so on; after the last hunk the remaining old lines.
pub open spec fn applied(
    lines: Seq<Seq<char>>,
    hunks: Seq<HunkV>,
    selected: Seq<bool>,
    i: int,
    pos: int,
) -> Seq<char>
    decreases hunks.len() - i,
{
    if i < 0 || i >= hunks.len() || i >= selected.len() {
        flat(lines.subrange(pos, lines.len() as int))
    } else {
        let h = hunks[i];
        let from = begins_at(lines, h, pos);
        let to = ends_at(lines, h, pos);
        flat(lines.subrange(pos, from)) + (if selected[i] {
            flat(h.new_content)
        } else {
            flat(lines.subrange(from, to))
        }) + applied(lines, hunks, selected, i + 1, to)
    }
}

/// Append the lines `v[from..to]`.
fn append_lines(out: &mut String, v: &Vec<String>, from: usize, to: usize)
    requires
        from <= to <= v@.len(),
    ensures
        final(out)@ == old(out)@ + flat(text::texts(v@).subrange(from as int, to as int)),
{
    let ghost t = text::texts(v@);
    let mut i: usize = from;
    assert(out@ + flat(t.subrange(from as int, from as int)) =~= out@);
    while i < to
        invariant
            from <= i <= to <= v@.len(),
            t == text::texts(v@),
            out@ == old(out)@ + flat(t.subrange(from as int, i as int)),
        decreases to - i,
    {
        out.append(&v[i]);
        i += 1;
        assert(t.subrange(from as int, i as int).drop_last() =~= t.subrange(from as int, i - 1));
        assert(t.subrange(from as int, i as int).last() == v@[i - 1]@);
        assert(out@ =~= old(out)@ + flat(t.subrange(from as int, i as int)));
    }
}

/// Rebuild file content from `old`, applying only the hunks flagged in `selected`.
/// Hunks are ordered; unselected regions keep the old text.
pub fn apply_selected(old: &str, hunks: &Vec<Hunk>, selected: &Vec<bool>) -> (s: String)
    ensures
        s@ == applied(lines_of(old@), views(hunks@), selected@, 0, 0),
{
    let lines = split_keep_newlines(old);
    let ghost t = lines_of(old@);
    let ghost hs = views(hunks@);
    let mut out = String::new();
    let mut pos: usize = 0;
    let mut i: usize = 0;
    assert(out@ + applied(t, hs, selected@, 0, 0) =~= applied(t, hs, selected@, 0, 0));
    while i < hunks.len() && i < selected.len()
        invariant
            0 <= i <= hunks@.len(),
            i <= selected@.len(),
            pos <= lines@.len(),
            t == text::texts(lines@),
            hs == views(hunks@),
            out@ + applied(t, hs, selected@, i as int, pos as int) == applied(
                t,
                hs,
                selected@,
                0,
                0,
            ),
        decreases hunks@.len() - i,
    {
        let h = &hunks[i];
        let ghost was = out@;
        let start: usize = if h.old_start > 0 {
            h.old_start - 1
        } else {
            0
        };
        let from: usize = if pos < start {
            if start > lines.len() {
                lines.len()
            } else {
                start
            }
        } else {
            pos
        };
        let room: usize = lines.len() - from;
        let to: usize = if h.old_lines > room {
            lines.len()
        } else {
            from + h.old_lines
        };
        append_lines(&mut out, &lines, pos, from);
        if selected[i] {
            append_lines(&mut out, &h.new_content, 0, h.new_content.len());
            assert(text::texts(h.new_content@).subrange(0, h.new_content@.len() as int)
                =~= h@.new_content);
        } else {
            append_lines(&mut out, &lines, from, to);
        }
        proof {
            assert(hs[i as int] == h@);
            assert(from == begins_at(t, h@, pos as int));
            assert(to == ends_at(t, h@, pos as int));
            let rest = applied(t, hs, selected@, i + 1, to as int);
            assert(out@ + rest =~= was + applied(t, hs, selected@, i as int, pos as int));
        }
        pos = to;
        i += 1;
    }
    let ghost was = out@;
    append_lines(&mut out, &lines, pos, lines.len());
    assert(out@ =~= was + applied(t, hs, selected@, i as int, pos as int));
    out
}

proof fn lemma_flat_join(a: Seq<Seq<char>>, b: Seq<Seq<char>>)
    ensures
        flat(a + b) == flat(a) + flat(b),
    decreases b.len(),
{
    if b.len() == 0 {
        assert(a + b =~= a);
        assert(flat(a) + flat(b) =~= flat(a));
    } else {
        lemma_flat_join(a, b.drop_last());
        assert((a + b).drop_last() =~= a + b.drop_last());
        assert(flat(a + b) =~= flat(a) + flat(b));
    }
}

proof fn lemma_none(
    lines: Seq<Seq<char>>,
    hunks: Seq<HunkV>,
    selected: Seq<bool>,
    i: int,
    pos: int,
)
    requires
        0 <= i,
        0 <= pos <= lines.len(),
        forall|j: int| i <= j < selected.len() ==> !#[trigger] selected[j],
    ensures
        applied(lines, hunks, selected, i, pos) == flat(lines.subrange(pos, lines.len() as int)),
    decreases hunks.len() - i,
{
    if i < hunks.len() && i < selected.len() {
        let from = begins_at(lines, hunks[i], pos);
        let to = ends_at(lines, hunks[i], pos);
        lemma_none(lines, hunks, selected, i + 1, to);
        let end = lines.len() as int;
        lemma_flat_join(lines.subrange(pos, from), lines.subrange(from, to));
        assert(lines.subrange(pos, from) + lines.subrange(from, to) =~= lines.subrange(pos, to));
        lemma_flat_join(lines.subrange(pos, to), lines.subrange(to, end));
        assert(lines.subrange(pos, to) + lines.subrange(to, end) =~= lines.subrange(pos, end));
        assert(!selected[i]);
    }
}

/// With no hunk selected, the file is the old one.
pub proof fn select_none_reconstructs_old(old: Seq<char>, hunks: Seq<HunkV>, selected: Seq<bool>)
    requires
        forall|j: int| 0 <= j < selected.len() ==> !#[trigger] selected[j],
    ensures
        applied(lines_of(old), hunks, selected, 0, 0) == old,
{
    let lines = lines_of(old);
    lemma_none(lines, hunks, selected, 0, 0);
    assert(lines.subrange(0, lines.len() as int) =~= lines);
    lines_make_the_text(old);
}

/// The hunks `hunks[i..]` are what tells the new lines from `npos` on from the old
/// lines from `pos` on: equal lines up to a hunk, the hunk's new content in place
/// of the old lines it covers, and equal lines after the last.
pub open spec fn describes(
    old: Seq<Seq<char>>,
    new: Seq<Seq<char>>,
    hunks: Seq<HunkV>,
    i: int,
    pos: int,
    npos: int,
) -> bool
    decreases hunks.len() - i,
{
    if i < 0 || i >= hunks.len() {
        0 <= npos <= new.len() && old.subrange(pos, old.len() as int) == new.subrange(
            npos,
            new.len() as int,
        )
    } else {
        let h = hunks[i];
        let from = begins_at(old, h, pos);
        let mid = npos + (from - pos);
        let end = mid + h.new_content.len();
        &&& 0 <= npos
        &&& end <= new.len()
        &&& old.subrange(pos, from) == new.subrange(npos, mid)
        &&& h.new_content == new.subrange(mid, end)
        &&& describes(old, new, hunks, i + 1, ends_at(old, h, pos), end)
    }
}

proof fn lemma_all(
    old: Seq<Seq<char>>,
    new: Seq<Seq<char>>,
    hunks: Seq<HunkV>,
    selected: Seq<bool>,
    i: int,
    pos: int,
    npos: int,
)
    requires
        0 <= i <= hunks.len(),
        0 <= pos <= old.len(),
        selected.len() == hunks.len(),
        forall|j: int| 0 <= j < selected.len() ==> #[trigger] selected[j],
        describes(old, new, hunks, i, pos, npos),
    ensures
        applied(old, hunks, selected, i, pos) == flat(new.subrange(npos, new.len() as int)),
    decreases hunks.len() - i,
{
    if i < hunks.len() {
        let h = hunks[i];
        let from = begins_at(old, h, pos);
        let to = ends_at(old, h, pos);
        let mid = npos + (from - pos);
        let end = mid + h.new_content.len();
        let n = new.len() as int;
        lemma_all(old, new, hunks, selected, i + 1, to, end);
        lemma_flat_join(new.subrange(npos, mid), new.subrange(mid, end));
        assert(new.subrange(npos, mid) + new.subrange(mid, end) =~= new.subrange(npos, end));
        lemma_flat_join(new.subrange(npos, end), new.subrange(end, n));
        assert(new.subrange(npos, end) + new.subrange(end, n) =~= new.subrange(npos, n));
        assert(selected[i]);
    }
}

proof fn lemma_blank(hunks: Seq<HunkV>, selected: Seq<bool>, i: int, pos: int)
    requires
        0 <= i,
        0 <= pos <= 1,
    ensures
        applied(seq![Seq::<char>::empty()], hunks, selected, i, pos) == applied(
            Seq::empty(),
            hunks,
            selected,
            i,
            0,
        ),
    decreases hunks.len() - i,
{
    let blank = seq![Seq::<char>::empty()];
    let none = Seq::<Seq<char>>::empty();
    assert forall|a: int, b: int| 0 <= a <= b <= 1 implies #[trigger] flat(blank.subrange(a, b))
        == Seq::<char>::empty() by {
        let s = blank.subrange(a, b);
        if s.len() > 0 {
            assert(s.drop_last() =~= none);
            assert(s.last() == Seq::<char>::empty());
            assert(flat(none) == Seq::<char>::empty());
        }
        assert(flat(s) =~= Seq::<char>::empty());
    }
    assert(none.subrange(0, 0) =~= none);
    if i < hunks.len() && i < selected.len() {
        lemma_blank(hunks, selected, i + 1, ends_at(blank, hunks[i], pos));
        assert(applied(blank, hunks, selected, i, pos) =~= applied(none, hunks, selected, i, 0));
    }
}

/// With every hunk selected, the file is the new one.
pub proof fn select_all_reconstructs_new(
    old: Seq<char>,
    new: Seq<char>,
    hunks: Seq<HunkV>,
    selected: Seq<bool>,
)
    requires
        describes(pieces(old), pieces(new), hunks, 0, 0, 0),
        selected.len() == hunks.len(),
        forall|j: int| 0 <= j < selected.len() ==> #[trigger] selected[j],
    ensures
        applied(lines_of(old), hunks, selected, 0, 0) == new,
{
    let lines = pieces(new);
    lemma_all(pieces(old), lines, hunks, selected, 0, 0, 0);
    assert(lines.subrange(0, lines.len() as int) =~= lines);
    lemma_pieces(new);
    if old.len() == 0 {
        assert(pieces(old) =~= Seq::empty());
        lemma_blank(hunks, selected, 0, 0);
    }
}

/// With every hunk of a diff between two files that are diffed line by line selected,
/// the file is the new one: byte for byte, with or without a newline at its end.
pub proof fn the_hunks_of_a_diff_reconstruct_new(
    old: Seq<u8>,
    new: Seq<u8>,
    hunks: Seq<HunkV>,
    selected: Seq<bool>,
)
    requires
        sound(old, new, hunks),
        diffable(old),
        diffable(new),
        selected.len() == hunks.len(),
        forall|j: int| 0 <= j < selected.len() ==> #[trigger] selected[j],
    ensures
        vstd::utf8::encode_utf8(
            applied(lines_of(vstd::utf8::decode_utf8(old)), hunks, selected, 0, 0),
        ) == new,
{
    let (o, n) = (vstd::utf8::decode_utf8(old), vstd::utf8::decode_utf8(new));
    select_all_reconstructs_new(o, n, hunks, selected);
    vstd::utf8::decode_utf8_encode_utf8(new);
}

// ── any selection of the hunks ──────────────────────────────────────────────

/// Each hunk ends before the next begins, and one that covers lines covers them from the
/// first on. So it is with the hunks of every diff: see [`sound`].
pub open spec fn in_order(hunks: Seq<HunkV>) -> bool {
    &&& forall|i: int|
        0 <= i < hunks.len() && (#[trigger] hunks[i]).old_lines > 0 ==> hunks[i].old_start > 0
    &&& forall|i: int, j: int|
        0 <= i < j < hunks.len() ==> (#[trigger] hunks[i]).old_start + hunks[i].old_lines <= (
        #[trigger] hunks[j]).old_start
}

/// The number of the old line, counted from zero, that the hunk begins at, in a text of
/// `n` lines.
pub open spec fn first_line(h: HunkV, n: int) -> int {
    if h.old_start == 0 {
        0
    } else if h.old_start - 1 <= n {
        h.old_start - 1
    } else {
        n
    }
}

/// The number of the old line after the last that the hunk covers.
pub open spec fn last_line(h: HunkV, n: int) -> int {
    if first_line(h, n) + h.old_lines <= n {
        first_line(h, n) + h.old_lines
    } else {
        n
    }
}

/// Where the hunk before the one at `i` ends.
pub open spec fn end_before(hunks: Seq<HunkV>, i: int, n: int) -> int {
    if i == 0 {
        0
    } else {
        last_line(hunks[i - 1], n)
    }
}

/// The old lines before the hunk at `i` that no hunk covers; at the end of the list,
/// those after the last.
pub open spec fn kept(lines: Seq<Seq<char>>, hunks: Seq<HunkV>, i: int) -> Seq<char> {
    let n = lines.len() as int;
    flat(
        lines.subrange(
            end_before(hunks, i, n),
            if i < hunks.len() {
                first_line(hunks[i], n)
            } else {
                n
            },
        ),
    )
}

/// The old lines that the hunk covers.
pub open spec fn covered(lines: Seq<Seq<char>>, h: HunkV) -> Seq<char> {
    flat(lines.subrange(first_line(h, lines.len() as int), last_line(h, lines.len() as int)))
}

/// The pieces of a text: old lines that no hunk covers and what stands for a hunk, in
/// turn. What stands for a hunk goes by its own flag.
pub open spec fn patchwork(
    lines: Seq<Seq<char>>,
    hunks: Seq<HunkV>,
    selected: Seq<bool>,
) -> Seq<Seq<char>> {
    Seq::new(
        2 * hunks.len() + 1,
        |m: int|
            if m % 2 == 0 {
                kept(lines, hunks, m / 2)
            } else if selected[m / 2] {
                flat(hunks[m / 2].new_content)
            } else {
                covered(lines, hunks[m / 2])
            },
    )
}

proof fn lemma_spans(hunks: Seq<HunkV>, i: int, n: int)
    requires
        in_order(hunks),
        0 <= i < hunks.len(),
        0 <= n,
    ensures
        0 <= end_before(hunks, i, n) <= first_line(hunks[i], n) <= last_line(hunks[i], n) <= n,
{
    if i > 0 {
        let (g, h) = (hunks[i - 1], hunks[i]);
        assert(g.old_start + g.old_lines <= h.old_start);
        if g.old_lines > 0 {
            assert(g.old_start > 0);
        }
    }
}

proof fn lemma_begins(lines: Seq<Seq<char>>, hunks: Seq<HunkV>, i: int)
    requires
        in_order(hunks),
        0 <= i < hunks.len(),
    ensures
        begins_at(lines, hunks[i], end_before(hunks, i, lines.len() as int)) == first_line(
            hunks[i],
            lines.len() as int,
        ),
        ends_at(lines, hunks[i], end_before(hunks, i, lines.len() as int)) == last_line(
            hunks[i],
            lines.len() as int,
        ),
{
    lemma_spans(hunks, i, lines.len() as int);
}

proof fn lemma_patchwork(
    lines: Seq<Seq<char>>,
    hunks: Seq<HunkV>,
    selected: Seq<bool>,
    i: int,
)
    requires
        in_order(hunks),
        selected.len() == hunks.len(),
        0 <= i <= hunks.len(),
    ensures
        applied(lines, hunks, selected, i, end_before(hunks, i, lines.len() as int)) == flat(
            patchwork(lines, hunks, selected).skip(2 * i),
        ),
    decreases hunks.len() - i,
{
    let n = lines.len() as int;
    let w = patchwork(lines, hunks, selected);
    let rest = w.skip(2 * i);
    if i < hunks.len() {
        lemma_begins(lines, hunks, i);
        lemma_patchwork(lines, hunks, selected, i + 1);
        let two = seq![w[2 * i], w[2 * i + 1]];
        assert(rest =~= two + w.skip(2 * (i + 1)));
        lemma_flat_join(two, w.skip(2 * (i + 1)));
        assert(two.drop_last() =~= seq![w[2 * i]]);
        lemma_flat_one(w[2 * i]);
        assert(flat(two) =~= w[2 * i] + w[2 * i + 1]);
        assert((2 * i) % 2 == 0 && (2 * i) / 2 == i);
        assert((2 * i + 1) % 2 == 1 && (2 * i + 1) / 2 == i);
        assert(applied(lines, hunks, selected, i, end_before(hunks, i, n)) =~= flat(rest));
    } else {
        assert((2 * i) % 2 == 0 && (2 * i) / 2 == i);
        assert(rest =~= seq![w[2 * i]]);
        lemma_flat_one(w[2 * i]);
    }
}

proof fn lemma_flat_one(s: Seq<char>)
    ensures
        flat(seq![s]) == s,
{
    let none = Seq::<Seq<char>>::empty();
    assert(seq![s].drop_last() =~= none);
    assert(flat(none) =~= Seq::<char>::empty());
    assert(flat(seq![s]) =~= s);
}

/// Whatever is selected, the new file is the old one hunk by hunk: the lines that no hunk
/// covers are there, and for each hunk stands its new content where its own flag is set,
/// and the old lines that it covers where it is not.
pub proof fn each_hunk_goes_by_its_own_flag(old: Seq<char>, hunks: Seq<HunkV>, selected: Seq<bool>)
    requires
        in_order(hunks),
        selected.len() == hunks.len(),
    ensures
        applied(lines_of(old), hunks, selected, 0, 0) == flat(
            patchwork(lines_of(old), hunks, selected),
        ),
{
    lemma_patchwork(lines_of(old), hunks, selected, 0);
    let w = patchwork(lines_of(old), hunks, selected);
    assert(w.skip(0) =~= w);
}

/// To pick one hunk more, or less, changes nothing outside of that hunk: before it and
/// after it stands the same, whether it is picked or not, and between the two its new
/// content or the old lines that it covers. What stands before does not depend on the
/// flags from this hunk on, and what stands after not on those up to it.
pub proof fn a_flag_changes_its_own_hunk_alone(
    old: Seq<char>,
    hunks: Seq<HunkV>,
    a: Seq<bool>,
    b: Seq<bool>,
    i: int,
) -> (around: (Seq<char>, Seq<char>, Seq<char>, Seq<char>))
    requires
        in_order(hunks),
        a.len() == hunks.len(),
        b.len() == hunks.len(),
        0 <= i < hunks.len(),
        a[i],
        !b[i],
    ensures
        applied(lines_of(old), hunks, a, 0, 0) == around.0 + flat(hunks[i].new_content) + around.1,
        applied(lines_of(old), hunks, b, 0, 0) == around.2 + covered(lines_of(old), hunks[i])
            + around.3,
        (forall|j: int| 0 <= j < i ==> a[j] == b[j]) ==> around.0 == around.2,
        (forall|j: int| i < j < a.len() ==> a[j] == b[j]) ==> around.1 == around.3,
{
    let lines = lines_of(old);
    each_hunk_goes_by_its_own_flag(old, hunks, a);
    each_hunk_goes_by_its_own_flag(old, hunks, b);
    let (w, v) = (patchwork(lines, hunks, a), patchwork(lines, hunks, b));
    let m = 2 * i + 1;
    assert(m / 2 == i && m % 2 == 1);
    lemma_flat_around(w, m);
    lemma_flat_around(v, m);
    if forall|j: int| 0 <= j < i ==> a[j] == b[j] {
        assert forall|x: int| 0 <= x < m implies w[x] == v[x] by {
            assert(x % 2 == 1 ==> x / 2 < i);
        }
        assert(w.take(m) =~= v.take(m));
    }
    if forall|j: int| i < j < a.len() ==> a[j] == b[j] {
        assert forall|x: int| m < x < w.len() implies w[x] == v[x] by {
            assert(x % 2 == 1 ==> x / 2 > i);
        }
        assert(w.skip(m + 1) =~= v.skip(m + 1));
    }
    (flat(w.take(m)), flat(w.skip(m + 1)), flat(v.take(m)), flat(v.skip(m + 1)))
}

proof fn lemma_flat_around(w: Seq<Seq<char>>, m: int)
    requires
        0 <= m < w.len(),
    ensures
        flat(w) == flat(w.take(m)) + w[m] + flat(w.skip(m + 1)),
{
    let one = seq![w[m]];
    assert(w =~= w.take(m) + one + w.skip(m + 1));
    lemma_flat_join(w.take(m), one);
    lemma_flat_join(w.take(m) + one, w.skip(m + 1));
    lemma_flat_one(w[m]);
}

proof fn lemma_shifted(
    lines: Seq<Seq<char>>,
    hunks: Seq<HunkV>,
    selected: Seq<bool>,
    i: int,
    j: int,
    pos: int,
)
    requires
        selected.len() == hunks.len(),
        0 <= i < hunks.len(),
        i <= j < hunks.len(),
    ensures
        applied(lines, hunks, selected, j + 1, pos) == applied(
            lines,
            hunks.remove(i),
            selected.remove(i),
            j,
            pos,
        ),
    decreases hunks.len() - j,
{
    if j + 1 < hunks.len() {
        lemma_shifted(lines, hunks, selected, i, j + 1, ends_at(lines, hunks[j + 1], pos));
    }
}

#[verifier::rlimit(40)]
#[verifier::spinoff_prover]
proof fn lemma_unpicked_here(
    lines: Seq<Seq<char>>,
    hunks: Seq<HunkV>,
    selected: Seq<bool>,
    i: int,
)
    requires
        in_order(hunks),
        selected.len() == hunks.len(),
        0 <= i < hunks.len(),
        !selected[i],
    ensures
        ({
            let pos = end_before(hunks, i, lines.len() as int);
            applied(lines, hunks, selected, i, pos) == applied(
                lines,
                hunks.remove(i),
                selected.remove(i),
                i,
                pos,
            )
        }),
{
    let n = lines.len() as int;
    let pos = end_before(hunks, i, n);
    lemma_begins(lines, hunks, i);
    lemma_spans(hunks, i, n);
    let from = first_line(hunks[i], n);
    let to = last_line(hunks[i], n);
    let (less, picks) = (hunks.remove(i), selected.remove(i));
    lemma_flat_join(lines.subrange(pos, from), lines.subrange(from, to));
    assert(lines.subrange(pos, from) + lines.subrange(from, to) =~= lines.subrange(pos, to));
    let tail = applied(lines, hunks, selected, i + 1, to);
    assert(applied(lines, hunks, selected, i, pos) =~= flat(lines.subrange(pos, to)) + tail);
    if i + 1 < hunks.len() {
        lemma_begins(lines, hunks, i + 1);
        lemma_spans(hunks, i + 1, n);
        let next = first_line(hunks[i + 1], n);
        let end = last_line(hunks[i + 1], n);
        lemma_flat_join(lines.subrange(pos, to), lines.subrange(to, next));
        assert(lines.subrange(pos, to) + lines.subrange(to, next) =~= lines.subrange(pos, next));
        lemma_shifted(lines, hunks, selected, i, i + 1, end);
        assert(less[i] == hunks[i + 1] && picks[i] == selected[i + 1]);
        assert(begins_at(lines, hunks[i + 1], pos) == next);
        assert(ends_at(lines, hunks[i + 1], pos) == end);
    } else {
        lemma_flat_join(lines.subrange(pos, to), lines.subrange(to, n));
        assert(lines.subrange(pos, to) + lines.subrange(to, n) =~= lines.subrange(pos, n));
    }
    assert(flat(lines.subrange(pos, to)) + tail =~= applied(lines, less, picks, i, pos));
}

#[verifier::rlimit(40)]
#[verifier::spinoff_prover]
proof fn lemma_unpicked(
    lines: Seq<Seq<char>>,
    hunks: Seq<HunkV>,
    selected: Seq<bool>,
    i: int,
    j: int,
)
    requires
        in_order(hunks),
        selected.len() == hunks.len(),
        0 <= j <= i < hunks.len(),
        !selected[i],
    ensures
        ({
            let pos = end_before(hunks, j, lines.len() as int);
            applied(lines, hunks, selected, j, pos) == applied(
                lines,
                hunks.remove(i),
                selected.remove(i),
                j,
                pos,
            )
        }),
    decreases i - j,
{
    if j < i {
        lemma_begins(lines, hunks, j);
        lemma_spans(hunks, j, lines.len() as int);
        lemma_unpicked(lines, hunks, selected, i, j + 1);
        assert(hunks.remove(i)[j] == hunks[j] && selected.remove(i)[j] == selected[j]);
    } else {
        lemma_unpicked_here(lines, hunks, selected, i);
    }
}

/// A hunk that is not picked might as well not be there.
pub proof fn an_unpicked_hunk_is_as_good_as_absent(
    old: Seq<char>,
    hunks: Seq<HunkV>,
    selected: Seq<bool>,
    i: int,
)
    requires
        in_order(hunks),
        selected.len() == hunks.len(),
        0 <= i < hunks.len(),
        !selected[i],
    ensures
        applied(lines_of(old), hunks, selected, 0, 0) == applied(
            lines_of(old),
            hunks.remove(i),
            selected.remove(i),
            0,
            0,
        ),
{
    lemma_unpicked(lines_of(old), hunks, selected, i, 0);
}

/// The hunks of a diff are in order, so that any of them can be picked.
pub proof fn the_hunks_of_a_diff_are_in_order(old: Seq<u8>, new: Seq<u8>, hunks: Seq<HunkV>)
    requires
        sound(old, new, hunks),
    ensures
        in_order(hunks),
{
    assert forall|i: int|
        0 <= i < hunks.len() && (#[trigger] hunks[i]).old_lines > 0 implies hunks[i].old_start
        > 0 by {
        assert(well_placed(hunks[i]));
    }
}

// ── a commit with some of the hunks ─────────────────────────────────────────

/// The synthetic commit on top of `source` in which `path` has the text `content`.
pub open spec fn synthetic_in(
    k: Known,
    source: Oid,
    path: Seq<char>,
    content: Seq<char>,
    mode: i32,
) -> AskV<Oid> {
    match store::object_in(k, QueryV::Blob(content)) {
        AskV::Need(q) => AskV::Need(q),
        AskV::Fail(e) => AskV::Fail(e),
        AskV::Have(blob) => match store::commit_in(k, source) {
            AskV::Need(q) => AskV::Need(q),
            AskV::Fail(e) => AskV::Fail(e),
            AskV::Have(c) => match engine::set_path_in(k, c.tree, path, Some((blob, mode))) {
                AskV::Need(q) => AskV::Need(q),
                AskV::Fail(e) => AskV::Fail(e),
                AskV::Have(tree) => store::object_in(
                    k,
                    QueryV::Create {
                        tree,
                        parent: source,
                        message: "transplant-partial"@,
                        like: None,
                    },
                ),
            },
        },
    }
}

/// See [`synthetic_in`].
pub fn synthetic(seen: &Seen, source: Oid, path: &str, content: &str, mode: i32) -> (r: Ask<Oid>)
    ensures
        r@ == synthetic_in(seen@, source, path@, content@, mode),
{
    let blob = match seen.object(Query::Blob(content.to_owned())) {
        Ask::Need(q) => return Ask::Need(q),
        Ask::Fail(e) => return Ask::Fail(e),
        Ask::Have(b) => b,
    };
    let from = match seen.commit(source) {
        Ask::Need(q) => return Ask::Need(q),
        Ask::Fail(e) => return Ask::Fail(e),
        Ask::Have(c) => c.tree,
    };
    let tree = match engine::set_path(seen, from, path, Some((blob, mode))) {
        Ask::Need(q) => return Ask::Need(q),
        Ask::Fail(e) => return Ask::Fail(e),
        Ask::Have(t) => t,
    };
    seen.object(
        Query::Create { tree, parent: source, message: "transplant-partial".to_owned(), like: None },
    )
}

/// A synthetic commit that is known stays what it is when more is known, and what is
/// asked for it was not known before.
pub proof fn lemma_synthetic(
    k: Known,
    k2: Known,
    source: Oid,
    path: Seq<char>,
    content: Seq<char>,
    mode: i32,
)
    requires
        k.submap_of(k2),
    ensures
        engine::steady(
            k2,
            synthetic_in(k, source, path, content, mode),
            synthetic_in(k2, source, path, content, mode),
        ),
        synthetic_in(k, source, path, content, mode) matches AskV::Need(q) ==> !k.contains_key(q),
{
    if let AskV::Have(blob) = store::object_in(k, QueryV::Blob(content)) {
        if let AskV::Have(c) = store::commit_in(k, source) {
            engine::lemma_set_path(k, k2, c.tree, path, Some((blob, mode)));
        }
    }
}

/// Build a synthetic commit whose diff (from `source`'s tree) applies only the
/// selected hunks of `path`, for use as a change to inject.
pub fn synthetic_for_hunks(
    seen: &Seen,
    source: Oid,
    path: &str,
    old_full: &str,
    hunks: &Vec<Hunk>,
    selected: &Vec<bool>,
    mode: i32,
) -> (r: Ask<Oid>)
    ensures
        r@ == synthetic_in(
            seen@,
            source,
            path@,
            applied(lines_of(old_full@), views(hunks@), selected@, 0, 0),
            mode,
        ),
{
    synthetic(seen, source, path, &apply_selected(old_full, hunks, selected), mode)
}

} // verus!
