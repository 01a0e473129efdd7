//! What holds of lines and hunks as they are read, and of the commits they belong to.

use crate::absorb;
use crate::absorb::{Absorbed, DeltaKind, DeltaV, Fold, Routing};
use crate::engine;
use crate::git::Stack;
use crate::inference;
use crate::oid::Oid;
use crate::patch;
use crate::patch::{HunkV, RawHunk, RawLine};
use crate::rewrite::Failure;
use crate::text;
use crate::{Error, ErrorV};
use vstd::prelude::*;

verus! {

// ── lines ───────────────────────────────────────────────────────────────────

/// A line ends where a newline stands, and nowhere else: none is empty, each has a newline
/// at its end at most, and only the last may lack it.
pub proof fn a_newline_ends_a_line(s: Seq<char>)
    requires
        s.len() > 0,
    ensures
        ({
            let lines = patch::lines_of(s);
            &&& lines.len() > 0
            &&& forall|i: int| 0 <= i < lines.len() ==> (#[trigger] lines[i]).len() > 0
            &&& forall|i: int, j: int|
                0 <= i < lines.len() && 0 <= j < lines[i].len() - 1 ==> #[trigger] lines[i][j]
                    != '\n'
            &&& forall|i: int| 0 <= i < lines.len() - 1 ==> (#[trigger] lines[i]).last() == '\n'
            &&& lines.last().last() == s.last()
        }),
    decreases s.len(),
{
    let lines = patch::lines_of(s);
    let front = s.drop_last();
    if front.len() == 0 {
        assert(patch::pieces(front) =~= Seq::empty());
        assert(lines =~= seq![seq![s.last()]]);
    } else {
        a_newline_ends_a_line(front);
        let was = patch::lines_of(front);
        assert(front.last() == s[s.len() - 2]);
        if s[s.len() - 2] != '\n' {
            let z = was.len() - 1;
            assert(lines =~= was.drop_last().push(was.last().push(s.last())));
            assert forall|i: int, j: int|
                0 <= i < lines.len() && 0 <= j < lines[i].len() - 1 implies #[trigger] lines[i][j]
                != '\n' by {
                if i < z {
                    assert(lines[i] == was[i]);
                    assert(was[i][j] != '\n');
                } else {
                    assert(lines[i][j] == was[z][j]);
                    if j < was[z].len() - 1 {
                        assert(was[z][j] != '\n');
                    }
                }
            }
            assert forall|i: int| 0 <= i < lines.len() - 1 implies (#[trigger] lines[i]).last()
                == '\n' by {
                assert(lines[i] == was[i]);
            }
        } else {
            let z = was.len() as int;
            assert(lines =~= was.push(seq![s.last()]));
            assert forall|i: int, j: int|
                0 <= i < lines.len() && 0 <= j < lines[i].len() - 1 implies #[trigger] lines[i][j]
                != '\n' by {
                if i < z {
                    assert(lines[i] == was[i]);
                    assert(was[i][j] != '\n');
                }
            }
            assert forall|i: int| 0 <= i < lines.len() - 1 implies (#[trigger] lines[i]).last()
                == '\n' by {
                assert(lines[i] == was[i]);
            }
        }
    }
}

/// For display a line loses its newline and nothing else.
pub proof fn only_newlines_are_cut(s: Seq<char>)
    ensures
        ({
            let t = patch::no_newline(s);
            &&& t.len() <= s.len()
            &&& t == s.take(t.len() as int)
            &&& forall|i: int| t.len() <= i < s.len() ==> #[trigger] s[i] == '\n'
            &&& t.len() > 0 ==> t.last() != '\n'
        }),
    decreases s.len(),
{
    if s.len() > 0 && s.last() == '\n' {
        only_newlines_are_cut(s.drop_last());
        let t = patch::no_newline(s);
        assert(t =~= s.take(t.len() as int));
        assert forall|i: int| t.len() <= i < s.len() implies #[trigger] s[i] == '\n' by {
            if i < s.len() - 1 {
                assert(s.drop_last()[i] == '\n');
            }
        }
    } else {
        assert(s.take(s.len() as int) =~= s);
    }
}

/// The names along a path are never empty and hold no slash, and together they hold every
/// other character of the path, in order.
pub proof fn the_names_along_a_path(path: Seq<char>)
    ensures
        ({
            let names = engine::components(path);
            &&& forall|i: int| 0 <= i < names.len() ==> (#[trigger] names[i]).len() > 0
            &&& forall|i: int, j: int|
                0 <= i < names.len() && 0 <= j < names[i].len() ==> #[trigger] names[i][j] != '/'
            &&& patch::flat(names) == path.filter(|c: char| c != '/')
            &&& path.len() > 0 && path.last() != '/' ==> names.len() > 0
        }),
    decreases path.len(),
{
    reveal(Seq::filter);
    let names = engine::components(path);
    if path.len() > 0 {
        let front = path.drop_last();
        the_names_along_a_path(front);
        let was = engine::components(front);
        if path.last() != '/' {
            if path.len() >= 2 && path[path.len() - 2] != '/' {
                assert(front.last() == path[path.len() - 2]);
                assert(names =~= was.drop_last().push(was.last().push(path.last())));
                assert(names.drop_last() =~= was.drop_last());
                assert(patch::flat(names) =~= patch::flat(was).push(path.last()));
                assert forall|i: int, j: int|
                    0 <= i < names.len() && 0 <= j < names[i].len() implies #[trigger] names[i][j]
                    != '/' by {
                    if i < was.len() - 1 {
                        assert(was[i][j] != '/');
                    } else if j < was.last().len() {
                        assert(was[was.len() - 1][j] != '/');
                    }
                }
            } else {
                assert(names =~= was.push(seq![path.last()]));
                assert(names.drop_last() =~= was);
                assert(patch::flat(names) =~= patch::flat(was).push(path.last()));
                assert forall|i: int, j: int|
                    0 <= i < names.len() && 0 <= j < names[i].len() implies #[trigger] names[i][j]
                    != '/' by {
                    if i < was.len() {
                        assert(was[i][j] != '/');
                    }
                }
            }
        }
    } else {
        assert(patch::flat(names) =~= Seq::empty());
    }
}

/// A slash before, after or twice between two names changes nothing; one slash between two
/// runs parts them.
pub proof fn a_slash_parts_two_names(a: Seq<char>, b: Seq<char>)
    ensures
        engine::components(a.push('/') + b) == engine::components(a) + engine::components(b),
    decreases b.len(),
{
    let whole = a.push('/') + b;
    if b.len() == 0 {
        assert(whole =~= a.push('/'));
        assert(whole.drop_last() =~= a);
        assert(engine::components(b) =~= Seq::empty());
        assert(engine::components(a) + engine::components(b) =~= engine::components(a));
    } else {
        a_slash_parts_two_names(a, b.drop_last());
        the_names_along_a_path(b.drop_last());
        assert(whole.drop_last() =~= a.push('/') + b.drop_last());
        assert(whole.last() == b.last());
        let (x, y) = (engine::components(a), engine::components(b.drop_last()));
        if b.len() >= 2 {
            assert(whole[whole.len() - 2] == b[b.len() - 2]);
            assert(b.drop_last().last() == b[b.len() - 2]);
        } else {
            assert(whole[whole.len() - 2] == '/');
            assert(b.drop_last() =~= Seq::empty());
        }
        if b.last() != '/' {
            if b.len() >= 2 && b[b.len() - 2] != '/' {
                assert((x + y).drop_last() =~= x + y.drop_last());
                assert(engine::components(whole) =~= x + engine::components(b));
            } else {
                assert(engine::components(whole) =~= x + engine::components(b));
            }
        }
    }
}

// ── hunks ───────────────────────────────────────────────────────────────────

/// A line of context, one that is added, or one that is removed.
pub open spec fn is_line(l: RawLine) -> bool {
    l.0 == ' ' || l.0 == '+' || l.0 == '-'
}

/// A hunk is read as it stands: the lines it shows are its own, without their newlines; its
/// new content is the context and the additions; it changes the lines that it removes; and
/// it counts both.
pub proof fn a_hunk_is_read_as_it_stands(h: RawHunk)
    ensures
        ({
            let p = patch::parsed(h);
            let l = h.3;
            &&& p.header == text::trimmed_end(text::lossy(h.0))
            &&& p.old_start == h.1 && p.old_lines == h.2
            &&& p.lines == l.filter(|x: RawLine| is_line(x)).map_values(
                |x: RawLine| (x.0, patch::no_newline(text::lossy(x.2))),
            )
            &&& p.new_content == l.filter(|x: RawLine| x.0 == ' ' || x.0 == '+').map_values(
                |x: RawLine| text::lossy(x.2),
            )
            &&& p.changed_old == l.filter(|x: RawLine| x.0 == '-' && x.1 is Some).map_values(
                |x: RawLine| x.1->0 as usize,
            )
            &&& p.added == l.filter(|x: RawLine| x.0 == '+').len()
            &&& p.removed == l.filter(|x: RawLine| x.0 == '-').len()
        }),
    decreases h.3.len(),
{
    reveal(Seq::filter);
    let l = h.3;
    let p = patch::parsed(h);
    if l.len() > 0 {
        let front = l.drop_last();
        let g: RawHunk = (h.0, h.1, h.2, front);
        a_hunk_is_read_as_it_stands(g);
        assert(p.lines =~= l.filter(|x: RawLine| is_line(x)).map_values(
            |x: RawLine| (x.0, patch::no_newline(text::lossy(x.2))),
        ));
        assert(p.new_content =~= l.filter(|x: RawLine| x.0 == ' ' || x.0 == '+').map_values(
            |x: RawLine| text::lossy(x.2),
        ));
        assert(p.changed_old =~= l.filter(|x: RawLine| x.0 == '-' && x.1 is Some).map_values(
            |x: RawLine| x.1->0 as usize,
        ));
    } else {
        assert(p.lines =~= l.filter(|x: RawLine| is_line(x)).map_values(
            |x: RawLine| (x.0, patch::no_newline(text::lossy(x.2))),
        ));
        assert(p.new_content =~= l.filter(|x: RawLine| x.0 == ' ' || x.0 == '+').map_values(
            |x: RawLine| text::lossy(x.2),
        ));
        assert(p.changed_old =~= l.filter(|x: RawLine| x.0 == '-' && x.1 is Some).map_values(
            |x: RawLine| x.1->0 as usize,
        ));
    }
}

/// The hunks of a change are those of its diff with three lines of context, one by one.
pub proof fn a_diff_has_three_lines_of_context(old: Seq<u8>, new: Seq<u8>)
    ensures
        match (patch::hunks_of(old, new), patch::diff_of(old, new, 3)) {
            (Ok(h), Ok(raw)) => h.len() == raw.len() && forall|i: int|
                0 <= i < h.len() ==> #[trigger] h[i] == patch::parsed(raw[i]),
            (Err(m), Err(t)) => m == t,
            _ => false,
        },
{
}

/// A delta is diffed only if it is a text file that was modified; any other has no hunks.
pub proof fn only_text_that_was_modified_is_diffed(d: DeltaV)
    ensures
        has_hunks(d) ==> absorb::diff_for(d) == patch::hunks_of(d.old, d.new),
        !has_hunks(d) ==> (absorb::diff_for(d) matches Ok(h) && h.len() == 0),
{
}

/// `n` is the number of the last numbered line before `i`.
pub open spec fn numbered_before(l: Seq<RawLine>, i: int, n: usize) -> bool {
    exists|j: int|
        {
            &&& 0 <= j < i
            &&& (#[trigger] l[j]).1 is Some
            &&& l[j].1->0 as usize == n
            &&& forall|x: int| j < x < i ==> (#[trigger] l[x]).1 is None
        }
}

proof fn lemma_last_old(l: Seq<RawLine>)
    ensures
        match patch::last_old(l) {
            Some(n) => numbered_before(l, l.len() as int, n),
            None => forall|x: int| 0 <= x < l.len() ==> (#[trigger] l[x]).1 is None,
        },
    decreases l.len(),
{
    if l.len() > 0 {
        let z = l.len() - 1;
        let front = l.drop_last();
        assert(l[z] == l.last());
        if l.last().1 is None {
            lemma_last_old(front);
            if let Some(n) = patch::last_old(front) {
                let j = choose|j: int|
                    {
                        &&& 0 <= j < front.len()
                        &&& (#[trigger] front[j]).1 is Some
                        &&& front[j].1->0 as usize == n
                        &&& forall|x: int| j < x < front.len() ==> (#[trigger] front[x]).1 is None
                    };
                assert(l[j].1 is Some);
                assert forall|x: int| j < x < l.len() implies (#[trigger] l[x]).1 is None by {
                    if x < z {
                        assert(front[x].1 is None);
                    }
                }
            } else {
                assert forall|x: int| 0 <= x < l.len() implies (#[trigger] l[x]).1 is None by {
                    if x < z {
                        assert(front[x].1 is None);
                    }
                }
            }
        } else {
            let n = l.last().1->0 as usize;
            assert(l[z].1 is Some && l[z].1->0 as usize == n);
        }
    }
}

/// The additions that `at` lists: each of them an added line with a numbered one before
/// it, in order, and none left out. `after` gives those numbers.
pub open spec fn anchored(l: Seq<RawLine>, at: Seq<int>, after: Seq<usize>) -> bool {
    &&& at.len() == after.len()
    &&& forall|x: int|
        0 <= x < at.len() ==> {
            &&& 0 <= #[trigger] at[x] < l.len()
            &&& l[at[x]].0 == '+'
            &&& numbered_before(l, at[x], after[x])
        }
    &&& forall|x: int, y: int| 0 <= x < y < at.len() ==> #[trigger] at[x] < #[trigger] at[y]
    &&& forall|i: int, j: int|
        0 <= j < i < l.len() && (#[trigger] l[i]).0 == '+' && (#[trigger] l[j]).1 is Some
            ==> at.contains(i)
}

proof fn lemma_numbered_before(l: Seq<RawLine>, m: Seq<RawLine>, i: int, n: usize)
    requires
        0 <= i <= l.len() <= m.len(),
        m.take(l.len() as int) == l,
        numbered_before(l, i, n),
    ensures
        numbered_before(m, i, n),
{
    let j = choose|j: int|
        {
            &&& 0 <= j < i
            &&& (#[trigger] l[j]).1 is Some
            &&& l[j].1->0 as usize == n
            &&& forall|x: int| j < x < i ==> (#[trigger] l[x]).1 is None
        };
    assert(m[j] == l[j]);
    assert forall|x: int| j < x < i implies (#[trigger] m[x]).1 is None by {
        assert(m[x] == m.take(l.len() as int)[x]);
    }
}

/// An added line follows the last old line before it: each addition that has one is
/// anchored to it.
pub proof fn an_addition_follows_the_line_before_it(h: RawHunk) -> (at: Seq<int>)
    ensures
        anchored(h.3, at, patch::parsed(h).anchors),
    decreases h.3.len(),
{
    let l = h.3;
    if l.len() == 0 {
        Seq::empty()
    } else {
        let front = l.drop_last();
        let z = l.len() - 1;
        let g: RawHunk = (h.0, h.1, h.2, front);
        let was = an_addition_follows_the_line_before_it(g);
        let old = patch::parsed(g).anchors;
        lemma_last_old(front);
        assert(l.take(front.len() as int) =~= front);
        let at = match (l.last().0, patch::last_old(front)) {
            ('+', Some(_)) => was.push(z),
            _ => was,
        };
        let after = patch::parsed(h).anchors;
        assert forall|x: int| 0 <= x < at.len() implies {
            &&& 0 <= #[trigger] at[x] < l.len()
            &&& l[at[x]].0 == '+'
            &&& numbered_before(l, at[x], after[x])
        } by {
            if x < was.len() {
                assert(at[x] == was[x]);
                assert(after[x] == old[x]);
                assert(l[at[x]] == front[at[x]]);
                lemma_numbered_before(front, l, at[x], after[x]);
            } else {
                lemma_numbered_before(front, l, z, after[x]);
            }
        }
        assert forall|i: int, j: int|
            0 <= j < i < l.len() && (#[trigger] l[i]).0 == '+' && (#[trigger] l[j]).1 is Some implies at.contains(
        i) by {
            assert(front[j] == l[j]);
            if i < z {
                assert(front[i] == l[i]);
                assert(was.contains(i));
                let y = choose|y: int| 0 <= y < was.len() && was[y] == i;
                assert(at[y] == i);
            } else {
                assert(patch::last_old(front) is Some);
                assert(at[was.len() as int] == z);
            }
        }
        at
    }
}

/// A hunk is blamed on the lines it removes. One that only adds is blamed on the lines it
/// adds after; one that adds at the top of a file is blamed on the line it names, and on
/// none in a file without lines.
pub proof fn a_hunk_is_blamed_on_what_it_touches(h: HunkV)
    ensures
        ({
            let b = patch::blamed(h);
            &&& h.changed_old.len() > 0 ==> b == h.changed_old
            &&& h.changed_old.len() == 0 && h.anchors.len() > 0 ==> b == h.anchors
            &&& h.changed_old.len() == 0 && h.anchors.len() == 0 ==> (forall|n: usize|
                b.contains(n) <==> n > 0 && n == h.old_start) && b.len() <= 1
        }),
{
    let b = patch::blamed(h);
    if h.changed_old.len() == 0 && h.anchors.len() == 0 && h.old_start > 0 {
        assert(b[0] == h.old_start);
    }
}

// ── routing ─────────────────────────────────────────────────────────────────

/// The delta is a text file that was modified: only such a one has hunks that may find a
/// home.
pub open spec fn has_hunks(d: DeltaV) -> bool {
    &&& d.kind == DeltaKind::Modified
    &&& d.path is Some
    &&& vstd::utf8::valid_utf8(d.old)
    &&& vstd::utf8::valid_utf8(d.new)
}

/// The delta cannot be routed, for this reason: its diff could not be made, or there is
/// something to blame and blame could not be told.
pub open spec fn stuck(d: DeltaV, diff: Result<Seq<HunkV>, Seq<char>>, e: ErrorV) -> bool {
    &&& has_hunks(d)
    &&& match diff {
        Err(m) => e == ErrorV::Git(m),
        Ok(h) => h.len() > 0 && (d.blame matches Err(m) && e == ErrorV::Git(m)),
    }
}

/// A routing fails exactly if one of the deltas cannot be routed, with the reason of the
/// first of them.
pub proof fn the_first_delta_that_is_stuck_fails_the_routing(
    deltas: Seq<DeltaV>,
    diffs: Seq<Result<Seq<HunkV>, Seq<char>>>,
    window: Seq<Oid>,
    n: int,
)
    requires
        0 <= n,
    ensures
        match absorb::routed(deltas, diffs, window, n) {
            Err(e) => exists|q: int|
                {
                    &&& 0 <= q < n
                    &&& #[trigger] stuck(deltas[q], diffs[q], e)
                    &&& forall|p: int, f: ErrorV|
                        0 <= p < q ==> !(#[trigger] stuck(deltas[p], diffs[p], f))
                },
            Ok(_) => forall|p: int, f: ErrorV|
                0 <= p < n ==> !(#[trigger] stuck(deltas[p], diffs[p], f)),
        },
    decreases n,
{
    if n > 0 {
        the_first_delta_that_is_stuck_fails_the_routing(deltas, diffs, window, n - 1);
        match absorb::routed(deltas, diffs, window, n - 1) {
            Err(e) => {
                let q = choose|q: int|
                    {
                        &&& 0 <= q < n - 1
                        &&& #[trigger] stuck(deltas[q], diffs[q], e)
                        &&& forall|p: int, f: ErrorV|
                            0 <= p < q ==> !(#[trigger] stuck(deltas[p], diffs[p], f))
                    };
                assert(stuck(deltas[q], diffs[q], e));
            },
            Ok(_) => {
                if let Err(e) = absorb::routed(deltas, diffs, window, n) {
                    assert(stuck(deltas[n - 1], diffs[n - 1], e));
                }
            },
        }
    }
}

/// What is left over is listed by the path of the delta it comes from, in order: a delta
/// without hunks once, and otherwise each hunk that no commit of the window owns.
pub open spec fn left_over(
    deltas: Seq<DeltaV>,
    diffs: Seq<Result<Seq<HunkV>, Seq<char>>>,
    window: Seq<Oid>,
    q: int,
    m: int,
) -> bool {
    let d = deltas[q];
    match diffs[q] {
        Ok(h) if has_hunks(d) && h.len() > 0 => 0 <= m < h.len() && !absorb::has_a_home(
            deltas,
            diffs,
            window,
            q,
            m,
        ),
        _ => m == 0,
    }
}

/// `from` tells of each orphan which piece of which delta it is.
pub open spec fn orphaned(
    orphans: Seq<Option<Seq<char>>>,
    deltas: Seq<DeltaV>,
    diffs: Seq<Result<Seq<HunkV>, Seq<char>>>,
    window: Seq<Oid>,
    from: Seq<(int, int)>,
) -> bool {
    &&& from.len() == orphans.len()
    &&& forall|x: int|
        0 <= x < orphans.len() ==> {
            let (q, m) = #[trigger] from[x];
            &&& 0 <= q < deltas.len()
            &&& left_over(deltas, diffs, window, q, m)
            &&& orphans[x] == deltas[q].path
        }
    &&& forall|x: int, y: int|
        0 <= x < y < from.len() ==> absorb::earlier(#[trigger] from[x], #[trigger] from[y])
}

proof fn lemma_orphans_spread(
    r: absorb::RoutingV,
    deltas: Seq<DeltaV>,
    diffs: Seq<Result<Seq<HunkV>, Seq<char>>>,
    window: Seq<Oid>,
    q: int,
    n: int,
    was: Seq<(int, int)>,
) -> (from: Seq<(int, int)>)
    requires
        0 <= q < deltas.len(),
        has_hunks(deltas[q]),
        diffs[q] is Ok,
        deltas[q].blame is Ok,
        0 <= n <= diffs[q]->Ok_0.len(),
        orphaned(r.orphans, deltas, diffs, window, was),
        forall|x: int| 0 <= x < was.len() ==> (#[trigger] was[x]).0 < q,
    ensures
        ({
            let h = diffs[q]->Ok_0;
            let d = deltas[q];
            let s = absorb::spread(
                r,
                d.path->0,
                vstd::utf8::decode_utf8(d.old),
                h,
                inference::homes(d.blame->Ok_0, h, window),
                d.mode,
                n,
            );
            &&& orphaned(s.orphans, deltas, diffs, window, from)
            &&& forall|x: int|
                0 <= x < from.len() ==> absorb::earlier(#[trigger] from[x], (q, n))
        }),
    decreases n,
{
    let h = diffs[q]->Ok_0;
    let d = deltas[q];
    let b = d.blame->Ok_0;
    if n == 0 {
        was
    } else {
        let from = lemma_orphans_spread(r, deltas, diffs, window, q, n - 1, was);
        let m = n - 1;
        let lines = patch::blamed(h[m]);
        inference::the_target_is_the_newest_owner(b, lines, window);
        assert(inference::homes(b, h, window)[m] == inference::newest_owner(b, lines, window));
        if inference::newest_owner(b, lines, window) is None {
            if absorb::has_a_home(deltas, diffs, window, q, m) {
                let w = choose|w: int|
                    0 <= w < window.len() && absorb::owns_some(b, h[m], #[trigger] window[w]);
                let x = choose|x: int|
                    0 <= x < lines.len() && 1 <= #[trigger] lines[x] <= b.len() && b[lines[x] - 1]
                        == Some(window[w]);
                assert(inference::owner(b, lines[x]) == Some(window[w]));
                assert(inference::owns(b, lines, window[w]));
            }
            let next = from.push((q, m));
            assert forall|x: int, y: int| 0 <= x < y < next.len() implies absorb::earlier(
                #[trigger] next[x],
                #[trigger] next[y],
            ) by {
                assert(next[x] == from[x]);
                if y < from.len() {
                    assert(next[y] == from[y]);
                }
            }
            assert forall|x: int| 0 <= x < next.len() implies absorb::earlier(
                #[trigger] next[x],
                (q, n),
            ) by {
                if x < from.len() {
                    assert(next[x] == from[x]);
                }
            }
            next
        } else {
            from
        }
    }
}

/// What is left over has no home: each orphan stands for a piece that no commit of the
/// window owns, under the path of its file, in the order of the change and none twice.
/// (Together with [`absorb::every_piece_is_folded_or_left`] and
/// [`absorb::every_hunk_with_a_home_is_folded_there`]: it is all of them.)
pub proof fn what_is_left_over_has_no_home(
    deltas: Seq<DeltaV>,
    diffs: Seq<Result<Seq<HunkV>, Seq<char>>>,
    window: Seq<Oid>,
    n: int,
) -> (from: Seq<(int, int)>)
    requires
        0 <= n <= deltas.len(),
        absorb::routed(deltas, diffs, window, n) is Ok,
    ensures
        orphaned(
            absorb::routed(deltas, diffs, window, n)->Ok_0.orphans,
            deltas,
            diffs,
            window,
            from,
        ),
        forall|x: int| 0 <= x < from.len() ==> (#[trigger] from[x]).0 < n,
    decreases n,
{
    if n == 0 {
        Seq::empty()
    } else {
        let q = n - 1;
        let was = what_is_left_over_has_no_home(deltas, diffs, window, q);
        let r = absorb::routed(deltas, diffs, window, q)->Ok_0;
        let d = deltas[q];
        if has_hunks(d) && diffs[q] is Ok && diffs[q]->Ok_0.len() > 0 {
            lemma_orphans_spread(
                r,
                deltas,
                diffs,
                window,
                q,
                diffs[q]->Ok_0.len() as int,
                was,
            )
        } else {
            let next = was.push((q, 0));
            assert forall|x: int, y: int| 0 <= x < y < next.len() implies absorb::earlier(
                #[trigger] next[x],
                #[trigger] next[y],
            ) by {
                assert(next[x] == was[x]);
                if y < was.len() {
                    assert(next[y] == was[y]);
                }
            }
            next
        }
    }
}

// ── a better target ─────────────────────────────────────────────────────────

/// The commit owns one of the lines that the hunk at `m` of the delta at `q` is blamed on.
pub open spec fn owns_of(
    deltas: Seq<DeltaV>,
    diffs: Seq<Result<Seq<HunkV>, Seq<char>>>,
    q: int,
    m: int,
    c: Oid,
) -> bool {
    &&& has_hunks(deltas[q])
    &&& match (diffs[q], deltas[q].blame) {
        (Ok(h), Ok(b)) => 0 <= m < h.len() && absorb::owns_some(b, h[m], c),
        _ => false,
    }
}

/// The commit owns a line of one of the first `n` deltas.
pub open spec fn owns_a_line(
    deltas: Seq<DeltaV>,
    diffs: Seq<Result<Seq<HunkV>, Seq<char>>>,
    n: int,
    c: Oid,
) -> bool {
    exists|q: int, m: int| 0 <= q < n && #[trigger] owns_of(deltas, diffs, q, m, c)
}

/// The commit is the newest of the window that owns a line of the change.
pub open spec fn newest_of(
    deltas: Seq<DeltaV>,
    diffs: Seq<Result<Seq<HunkV>, Seq<char>>>,
    window: Seq<Oid>,
    c: Oid,
) -> bool {
    exists|w: int|
        {
            &&& 0 <= w < window.len()
            &&& #[trigger] window[w] == c
            &&& owns_a_line(deltas, diffs, deltas.len() as int, c)
            &&& forall|v: int|
                w < v < window.len() ==> !owns_a_line(
                    deltas,
                    diffs,
                    deltas.len() as int,
                    #[trigger] window[v],
                )
        }
}

/// The delta has hunks, but its diff or its blame cannot be told.
pub open spec fn unread(d: DeltaV, diff: Result<Seq<HunkV>, Seq<char>>) -> bool {
    has_hunks(d) && (diff is Err || d.blame is Err)
}

/// The hunk at `m` of the delta at `q` has `c` for its home.
spec fn home_of(
    deltas: Seq<DeltaV>,
    diffs: Seq<Result<Seq<HunkV>, Seq<char>>>,
    window: Seq<Oid>,
    q: int,
    m: int,
    c: Oid,
) -> bool {
    &&& has_hunks(deltas[q])
    &&& match (diffs[q], deltas[q].blame) {
        (Ok(h), Ok(b)) => 0 <= m < h.len() && inference::newest_owner(
            b,
            patch::blamed(h[m]),
            window,
        ) == Some(c),
        _ => false,
    }
}

proof fn lemma_all_homes(
    deltas: Seq<DeltaV>,
    diffs: Seq<Result<Seq<HunkV>, Seq<char>>>,
    window: Seq<Oid>,
    n: int,
)
    requires
        0 <= n,
    ensures
        match absorb::all_homes(deltas, diffs, window, n) {
            Some(hs) => {
                &&& forall|q: int| 0 <= q < n ==> !(#[trigger] unread(deltas[q], diffs[q]))
                &&& forall|x: int|
                    0 <= x < hs.len() && (#[trigger] hs[x]) is Some ==> exists|q: int, m: int|
                        0 <= q < n && #[trigger] home_of(deltas, diffs, window, q, m, hs[x]->0)
                &&& forall|q: int, m: int, c: Oid|
                    0 <= q < n && #[trigger] home_of(deltas, diffs, window, q, m, c)
                        ==> hs.contains(Some(c))
            },
            None => exists|q: int| 0 <= q < n && #[trigger] unread(deltas[q], diffs[q]),
        },
    decreases n,
{
    if n > 0 {
        lemma_all_homes(deltas, diffs, window, n - 1);
        let z = n - 1;
        let d = deltas[z];
        match absorb::all_homes(deltas, diffs, window, z) {
            None => {},
            Some(was) => {
                if unread(deltas[z], diffs[z]) {
                    assert(absorb::all_homes(deltas, diffs, window, n) is None);
                } else {
                    let hs = absorb::all_homes(deltas, diffs, window, n)->0;
                    assert forall|x: int|
                        0 <= x < hs.len() && (#[trigger] hs[x]) is Some implies exists|
                        q: int,
                        m: int,
                    |
                        0 <= q < n && #[trigger] home_of(deltas, diffs, window, q, m, hs[x]->0) by {
                        let c = hs[x]->0;
                        if x < was.len() {
                            assert(was[x] == Some(c));
                            let (q, m) = choose|q: int, m: int|
                                0 <= q < z && #[trigger] home_of(deltas, diffs, window, q, m, c);
                            assert(home_of(deltas, diffs, window, q, m, c));
                        } else {
                            assert(home_of(deltas, diffs, window, z, x - was.len(), c));
                        }
                    }
                    assert forall|q: int, m: int, c: Oid|
                        0 <= q < n && #[trigger] home_of(
                            deltas,
                            diffs,
                            window,
                            q,
                            m,
                            c,
                        ) implies hs.contains(Some(c)) by {
                        if q < z {
                            assert(was.contains(Some(c)));
                            let x = choose|x: int| 0 <= x < was.len() && was[x] == Some(c);
                            assert(hs[x] == Some(c));
                        } else {
                            assert(hs[was.len() + m] == Some(c));
                        }
                    }
                }
            },
        }
    }
}

proof fn lemma_newest_home(homes: Seq<Option<Oid>>, window: Seq<Oid>)
    ensures
        match absorb::newest_home(homes, window) {
            Some(c) => exists|w: int|
                {
                    &&& 0 <= w < window.len()
                    &&& #[trigger] window[w] == c
                    &&& homes.contains(Some(c))
                    &&& forall|v: int|
                        w < v < window.len() ==> !homes.contains(Some(#[trigger] window[v]))
                },
            None => forall|v: int|
                0 <= v < window.len() ==> !homes.contains(Some(#[trigger] window[v])),
        },
    decreases window.len(),
{
    if window.len() > 0 {
        let z = window.len() - 1;
        let front = window.drop_last();
        if homes.contains(Some(window.last())) {
            assert(window[z] == window.last());
        } else {
            lemma_newest_home(homes, front);
            match absorb::newest_home(homes, front) {
                Some(c) => {
                    let w = choose|w: int|
                        {
                            &&& 0 <= w < front.len()
                            &&& #[trigger] front[w] == c
                            &&& homes.contains(Some(c))
                            &&& forall|v: int|
                                w < v < front.len() ==> !homes.contains(Some(#[trigger] front[v]))
                        };
                    assert(window[w] == c);
                    assert forall|v: int| w < v < window.len() implies !homes.contains(
                        Some(#[trigger] window[v]),
                    ) by {
                        if v < z {
                            assert(front[v] == window[v]);
                        }
                    }
                },
                None => {
                    assert forall|v: int| 0 <= v < window.len() implies !homes.contains(
                        Some(#[trigger] window[v]),
                    ) by {
                        if v < z {
                            assert(front[v] == window[v]);
                        }
                    }
                },
            }
        }
    }
}

/// Who owns a line of a hunk is no newer than the home of the hunk.
proof fn lemma_home_is_newest(
    deltas: Seq<DeltaV>,
    diffs: Seq<Result<Seq<HunkV>, Seq<char>>>,
    window: Seq<Oid>,
    q: int,
    m: int,
    v: int,
) -> (t: int)
    requires
        0 <= v < window.len(),
        owns_of(deltas, diffs, q, m, window[v]),
    ensures
        v <= t < window.len(),
        home_of(deltas, diffs, window, q, m, window[t]),
{
    let h = diffs[q]->Ok_0;
    let b = deltas[q].blame->Ok_0;
    let lines = patch::blamed(h[m]);
    let x = choose|x: int|
        0 <= x < lines.len() && 1 <= #[trigger] lines[x] <= b.len() && b[lines[x] - 1] == Some(
            window[v],
        );
    assert(inference::owner(b, lines[x]) == Some(window[v]));
    assert(inference::owns(b, lines, window[v]));
    inference::the_target_is_the_newest_owner(b, lines, window);
    let c = inference::newest_owner(b, lines, window)->0;
    let t = choose|i: int|
        0 <= i < window.len() && #[trigger] window[i] == c && inference::owns(b, lines, c)
            && forall|j: int|
            i < j < window.len() ==> !inference::owns(b, lines, #[trigger] window[j]);
    t
}

proof fn lemma_home_owns(
    deltas: Seq<DeltaV>,
    diffs: Seq<Result<Seq<HunkV>, Seq<char>>>,
    window: Seq<Oid>,
    q: int,
    m: int,
    c: Oid,
)
    requires
        home_of(deltas, diffs, window, q, m, c),
    ensures
        owns_of(deltas, diffs, q, m, c),
{
    let h = diffs[q]->Ok_0;
    let b = deltas[q].blame->Ok_0;
    let lines = patch::blamed(h[m]);
    inference::the_target_is_the_newest_owner(b, lines, window);
    assert(inference::owns(b, lines, c));
    let x = choose|i: int|
        0 <= i < lines.len() && inference::owner(b, #[trigger] lines[i]) == Some(c);
    assert(b[lines[x] - 1] == Some(c));
}

/// The commit that is suggested after a conflict is the newest of the window that owns a
/// line of the change, and not the one that was tried. None is suggested where that one is
/// the newest owner itself, where none of the window owns a line, or where a diff or blame
/// cannot be told.
pub proof fn the_newest_owner_is_suggested(
    deltas: Seq<DeltaV>,
    diffs: Seq<Result<Seq<HunkV>, Seq<char>>>,
    window: Seq<Oid>,
    requested: Oid,
)
    ensures
        match absorb::suggested(deltas, diffs, window, requested) {
            Some(c) => {
                &&& c != requested
                &&& newest_of(deltas, diffs, window, c)
                &&& forall|q: int|
                    0 <= q < deltas.len() ==> !(#[trigger] unread(deltas[q], diffs[q]))
            },
            None => {
                ||| newest_of(deltas, diffs, window, requested)
                ||| forall|v: int|
                    0 <= v < window.len() ==> !owns_a_line(
                        deltas,
                        diffs,
                        deltas.len() as int,
                        #[trigger] window[v],
                    )
                ||| exists|q: int|
                    0 <= q < deltas.len() && #[trigger] unread(deltas[q], diffs[q])
            },
        },
{
    let n = deltas.len() as int;
    lemma_all_homes(deltas, diffs, window, n);
    if let Some(hs) = absorb::all_homes(deltas, diffs, window, n) {
        lemma_newest_home(hs, window);
        let newest = absorb::newest_home(hs, window);
        let w = if let Some(c) = newest {
            choose|w: int|
                {
                    &&& 0 <= w < window.len()
                    &&& #[trigger] window[w] == c
                    &&& hs.contains(Some(c))
                    &&& forall|v: int|
                        w < v < window.len() ==> !hs.contains(Some(#[trigger] window[v]))
                }
        } else {
            -1
        };
        assert forall|v: int| w < v < window.len() implies !owns_a_line(
            deltas,
            diffs,
            n,
            #[trigger] window[v],
        ) by {
            if owns_a_line(deltas, diffs, n, window[v]) {
                let (q, m) = choose|q: int, m: int|
                    0 <= q < n && #[trigger] owns_of(deltas, diffs, q, m, window[v]);
                let t = lemma_home_is_newest(deltas, diffs, window, q, m, v);
                assert(hs.contains(Some(window[t])));
            }
        }
        if let Some(c) = newest {
            let x = choose|x: int| 0 <= x < hs.len() && hs[x] == Some(c);
            assert(hs[x] == Some(c));
            let (q, m) = choose|q: int, m: int|
                0 <= q < n && #[trigger] home_of(deltas, diffs, window, q, m, c);
            lemma_home_owns(deltas, diffs, window, q, m, c);
            assert(owns_a_line(deltas, diffs, n, c));
            assert(newest_of(deltas, diffs, window, c));
        }
    }
}

/// A suggestion goes into a conflict that the replay met, and into nothing else; the commit
/// and the path of the conflict stay.
pub proof fn a_suggestion_goes_into_a_conflict(
    f: Failure,
    suggested: Option<Oid>,
    r: Error,
)
    requires
        call_ensures(absorb::explained, (f, suggested), r),
    ensures
        match f.error@ {
            ErrorV::Conflict { commit, path, suggested: was } => r@ == (ErrorV::Conflict {
                commit,
                path,
                suggested: if f.replaying {
                    suggested
                } else {
                    was
                },
            }),
            other => r@ == other,
        },
{
}

// ── the replay of a routing ─────────────────────────────────────────────────

/// A routing is replayed from the first parent of the oldest commit that anything goes to,
/// and from nowhere if nothing goes anywhere.
pub proof fn a_routing_is_replayed_from_below_its_oldest_target(
    s: Stack,
    folds: Vec<Fold>,
    r: Option<Option<Oid>>,
)
    requires
        call_ensures(absorb::replay_base, (&s, &folds), r),
    ensures
        match r {
            None => forall|i: int, j: int|
                0 <= i < s.rows@.len() && 0 <= j < folds@.len() ==> (#[trigger] s.rows@[i]).0 != (
                #[trigger] folds@[j]).target,
            Some(base) => exists|i: int|
                {
                    &&& 0 <= i < s.rows@.len()
                    &&& match base {
                        Some(p) => (#[trigger] s.rows@[i]).1.parents@.len() > 0
                            && s.rows@[i].1.parents@[0] == p,
                        None => s.rows@[i].1.parents@.len() == 0,
                    }
                    &&& exists|j: int|
                        0 <= j < folds@.len() && (#[trigger] folds@[j]).target == s.rows@[i].0
                    &&& forall|h: int, j: int|
                        0 <= h < i && 0 <= j < folds@.len() ==> (#[trigger] s.rows@[h]).0 != (
                        #[trigger] folds@[j]).target
                },
        },
{
    let ids = s@.ids();
    let fs = absorb::folds_view(folds@);
    absorb::lemma_oldest(ids, fs, 0);
    match absorb::oldest_target(ids, fs, 0) {
        None => {
            assert forall|i: int, j: int|
                0 <= i < s.rows@.len() && 0 <= j < folds@.len() implies (#[trigger] s.rows@[i]).0
                != (#[trigger] folds@[j]).target by {
                assert(ids[i] == s.rows@[i].0);
                assert(fs[j].target == folds@[j].target);
            }
        },
        Some(t) => {
            assert(ids[t] == s.rows@[t].0);
            assert(s@.rows[t].1 == s.rows@[t].1@);
            let j = choose|j: int| 0 <= j < fs.len() && (#[trigger] fs[j]).target == ids[t];
            assert(folds@[j].target == s.rows@[t].0);
            assert forall|h: int, j: int|
                0 <= h < t && 0 <= j < folds@.len() implies (#[trigger] s.rows@[h]).0 != (
            #[trigger] folds@[j]).target by {
                assert(ids[h] == s.rows@[h].0);
                assert(fs[j].target == folds@[j].target);
            }
        },
    }
}

/// What an absorb reports before it is carried out: how much goes to a commit, how much is
/// left, and for each piece that goes, which one it is and where it goes.
pub proof fn an_absorb_reports_its_routing(x: Routing, a: Absorbed)
    requires
        call_ensures(Routing::absorbed, (&x,), a),
    ensures
        a.outcome is None,
        a.folded == x.folds@.len(),
        a.orphans == x.orphans@.len(),
        a.routes@.len() == x.folds@.len(),
        forall|i: int|
            0 <= i < x.folds@.len() ==> {
                let r = #[trigger] a.routes@[i];
                let f = x.folds@[i];
                r.0@ == f.path@ && r.1@ == f.header@ && r.2 == f.target
            },
{
    let v = absorb::routes_view(a.routes@);
    assert(v.len() == a.routes@.len());
    assert forall|i: int| 0 <= i < x.folds@.len() implies {
        let r = #[trigger] a.routes@[i];
        let f = x.folds@[i];
        r.0@ == f.path@ && r.1@ == f.header@ && r.2 == f.target
    } by {
        assert(v[i] == (a.routes@[i].0@, a.routes@[i].1@, a.routes@[i].2));
        assert(absorb::folds_view(x.folds@)[i] == x.folds@[i]@);
    }
}

} // verus!
