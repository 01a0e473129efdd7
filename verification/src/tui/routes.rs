//! What holds of the picked hunks: where they go, and what becomes of them there.

use crate::absorb::FoldV;
use crate::engine;
use crate::oid::Oid;
use crate::patch;
use crate::store;
use crate::store::{AnswerV, AskV, Known, QueryV};
use crate::text;
use crate::tui;
use crate::tui::plan;
use crate::tui::plan::{PartV, WeavingV};
use crate::tui::{AppV, FileV, RowV, Source};
use vstd::prelude::*;

verus! {

// ── rows and picks ──────────────────────────────────────────────────────────

/// The row of a commit is the first with its id; there is none if no row has it.
pub proof fn a_commit_is_found_by_its_first_row(commits: Seq<RowV>, c: Oid, i: int)
    requires
        0 <= i,
    ensures
        match tui::row_of(commits, c, i) {
            Some(r) => i <= r < commits.len() && commits[r].oid == c && forall|j: int|
                i <= j < r ==> (#[trigger] commits[j]).oid != c,
            None => forall|j: int| i <= j < commits.len() ==> (#[trigger] commits[j]).oid != c,
        },
    decreases commits.len() - i,
{
    if i < commits.len() && commits[i].oid != c {
        a_commit_is_found_by_its_first_row(commits, c, i + 1);
    }
}

/// One commit is newer than another exactly if its row is nearer the top.
pub proof fn newer_is_nearer_the_top(s: AppV, i: int, j: int)
    requires
        0 <= i < s.commits.len(),
        0 <= j < s.commits.len(),
        forall|x: int, y: int|
            0 <= x < y < s.commits.len() ==> (#[trigger] s.commits[x]).oid != (
            #[trigger] s.commits[y]).oid,
    ensures
        s.is_newer(s.commits[i].oid, s.commits[j].oid) <==> i < j,
{
    a_commit_is_found_by_its_first_row(s.commits, s.commits[i].oid, 0);
    a_commit_is_found_by_its_first_row(s.commits, s.commits[j].oid, 0);
}

/// The hunk at `i` is picked, and goes to `t`.
pub open spec fn goes_to(selected: Seq<bool>, targets: Seq<Option<Oid>>, i: int, t: Oid) -> bool {
    &&& 0 <= i < selected.len()
    &&& i < targets.len()
    &&& selected[i]
    &&& targets[i] == Some(t)
}

/// The routes of a file are the targets of its picked hunks, in order: what is not picked,
/// or goes nowhere, is left out.
pub proof fn the_routes_are_the_targets_of_what_is_picked(
    selected: Seq<bool>,
    targets: Seq<Option<Oid>>,
    n: int,
)
    requires
        0 <= n,
    ensures
        tui::aims(selected, targets, n) == Seq::new(
            n as nat,
            |i: int| (selected[i], targets[i]),
        ).filter(|p: (bool, Option<Oid>)| p.0 && p.1 is Some).map_values(
            |p: (bool, Option<Oid>)| p.1->0,
        ),
    decreases n,
{
    reveal(Seq::filter);
    let all = Seq::new(n as nat, |i: int| (selected[i], targets[i]));
    let f = |p: (bool, Option<Oid>)| p.0 && p.1 is Some;
    let g = |p: (bool, Option<Oid>)| p.1->0;
    if n > 0 {
        the_routes_are_the_targets_of_what_is_picked(selected, targets, n - 1);
        let front = Seq::new((n - 1) as nat, |i: int| (selected[i], targets[i]));
        assert(all.drop_last() =~= front);
        assert(tui::aims(selected, targets, n) =~= all.filter(f).map_values(g));
    } else {
        assert(tui::aims(selected, targets, n) =~= all.filter(f).map_values(g));
    }
}

proof fn lemma_aims(selected: Seq<bool>, targets: Seq<Option<Oid>>, n: int, t: Oid)
    requires
        0 <= n <= selected.len(),
        n <= targets.len(),
    ensures
        tui::aims(selected, targets, n).contains(t) <==> exists|i: int|
            i < n && #[trigger] goes_to(selected, targets, i, t),
    decreases n,
{
    if n > 0 {
        lemma_aims(selected, targets, n - 1, t);
        let a = tui::aims(selected, targets, n);
        let front = tui::aims(selected, targets, n - 1);
        if a.contains(t) {
            let x = choose|x: int| 0 <= x < a.len() && a[x] == t;
            if x < front.len() {
                assert(front[x] == t);
                let i = choose|i: int| i < n - 1 && #[trigger] goes_to(selected, targets, i, t);
                assert(goes_to(selected, targets, i, t));
            } else {
                assert(goes_to(selected, targets, n - 1, t));
            }
        }
        if exists|i: int| i < n && #[trigger] goes_to(selected, targets, i, t) {
            let i = choose|i: int| i < n && #[trigger] goes_to(selected, targets, i, t);
            if i < n - 1 {
                assert(front.contains(t));
                let x = choose|x: int| 0 <= x < front.len() && front[x] == t;
                assert(a[x] == t);
            } else {
                assert(a[front.len() as int] == t);
            }
        }
    }
}

/// A screen splits exactly if a picked hunk of one of its files goes to the new commit.
pub proof fn a_split_is_a_hunk_for_the_new_commit(s: AppV)
    requires
        s.wf(),
    ensures
        s.splits() <==> exists|x: int, i: int|
            0 <= x < s.files.len() && #[trigger] goes_to(
                s.files[x].selected,
                s.files[x].targets,
                i,
                Oid { w0: 0, w1: 0, w2: 0, w3: 0, w4: 0 },
            ),
{
    lemma_routes_contain(s.files, tui::phantom());
}

proof fn lemma_routes_contain(files: Seq<FileV>, t: Oid)
    requires
        forall|i: int| 0 <= i < files.len() ==> (#[trigger] files[i]).wf(),
    ensures
        tui::routes_of(files).contains(t) <==> exists|x: int, i: int|
            0 <= x < files.len() && #[trigger] goes_to(
                files[x].selected,
                files[x].targets,
                i,
                t,
            ),
    decreases files.len(),
{
    if files.len() > 0 {
        let front = files.drop_last();
        let z = files.len() - 1;
        let f = files[z];
        assert forall|i: int| 0 <= i < front.len() implies (#[trigger] front[i]).wf() by {
            assert(front[i] == files[i]);
        }
        lemma_routes_contain(front, t);
        assert(f.wf());
        lemma_aims(f.selected, f.targets, f.selected.len() as int, t);
        let a = tui::routes_of(front);
        let b = tui::aims(f.selected, f.targets, f.selected.len() as int);
        let all = tui::routes_of(files);
        assert(all == a + b);
        if all.contains(t) {
            let x = choose|x: int| 0 <= x < all.len() && all[x] == t;
            if x < a.len() {
                assert(a[x] == t);
                assert(a.contains(t));
                let (y, i) = choose|y: int, i: int|
                    0 <= y < front.len() && #[trigger] goes_to(
                        front[y].selected,
                        front[y].targets,
                        i,
                        t,
                    );
                assert(goes_to(files[y].selected, files[y].targets, i, t));
            } else {
                assert(b[x - a.len()] == t);
                assert(b.contains(t));
                let i = choose|i: int|
                    i < f.selected.len() && #[trigger] goes_to(f.selected, f.targets, i, t);
                assert(goes_to(files[z].selected, files[z].targets, i, t));
            }
        }
        if exists|x: int, i: int|
            0 <= x < files.len() && #[trigger] goes_to(
                files[x].selected,
                files[x].targets,
                i,
                t,
            ) {
            let (y, i) = choose|x: int, i: int|
                0 <= x < files.len() && #[trigger] goes_to(
                    files[x].selected,
                    files[x].targets,
                    i,
                    t,
                );
            if y < z {
                assert(goes_to(front[y].selected, front[y].targets, i, t));
                assert(a.contains(t));
                let x = choose|x: int| 0 <= x < a.len() && a[x] == t;
                assert(all[x] == t);
            } else {
                assert(b.contains(t));
                let x = choose|x: int| 0 <= x < b.len() && b[x] == t;
                assert(all[a.len() + x] == t);
            }
        }
    }
}

/// A group has its own target, and in it exactly the picked hunks that go there; at least
/// one does.
pub proof fn a_group_has_the_hunks_of_its_target(
    selected: Seq<bool>,
    targets: Seq<Option<Oid>>,
    g: int,
)
    requires
        selected.len() == targets.len(),
        0 <= g < plan::groups(selected, targets).len(),
    ensures
        ({
            let (t, m) = plan::groups(selected, targets)[g];
            &&& m.len() == selected.len()
            &&& forall|i: int|
                0 <= i < m.len() ==> (#[trigger] m[i] <==> goes_to(selected, targets, i, t))
            &&& exists|i: int| #[trigger] goes_to(selected, targets, i, t)
        }),
{
    let (t, _) = plan::groups(selected, targets)[g];
    plan::one_group_per_target(selected, targets);
    assert(tui::aims(selected, targets, selected.len() as int).contains(t));
    lemma_aims(selected, targets, selected.len() as int, t);
}

// ── changes on their way to commits ─────────────────────────────────────────

/// The fold is what the file sends to the commit `t`: the file's path and mode, and its old
/// text with the picked hunks applied that go there, and no others. It is taken out of a
/// commit only where it comes from one, and goes to a newer one.
pub open spec fn sends(s: AppV, f: FileV, t: Oid, d: FoldV) -> bool {
    &&& d.path == f.path
    &&& d.mode == f.mode
    &&& d.target == t
    &&& d.header.len() == 0
    &&& exists|m: Seq<bool>|
        {
            &&& m.len() == f.selected.len()
            &&& forall|i: int|
                0 <= i < m.len() ==> (#[trigger] m[i] <==> goes_to(f.selected, f.targets, i, t))
            &&& d.text == #[trigger] patch::applied(
                patch::lines_of(f.old_full),
                f.hunks,
                m,
                0,
                0,
            )
        }
    &&& match s.source {
        Source::Commit(src) => if s.is_newer(t, src) {
            d.revert == Some(src)
        } else {
            d.revert is None
        },
        _ => d.revert is None,
    }
}

/// The new commit's row is nobody's target in the routing of folds.
pub open spec fn is_new(t: Oid) -> bool {
    t == (Oid { w0: 0, w1: 0, w2: 0, w3: 0, w4: 0 })
}

/// `from` tells of each fold the file and the commit it goes to. Every commit that a picked
/// hunk of a file goes to has one, unless it is the new one.
pub open spec fn sent(s: AppV, folds: Seq<FoldV>, n: int, from: Seq<(int, Oid)>) -> bool {
    &&& from.len() == folds.len()
    &&& forall|y: int|
        0 <= y < folds.len() ==> {
            let (x, t) = #[trigger] from[y];
            &&& 0 <= x < n
            &&& !is_new(t)
            &&& exists|i: int| #[trigger] goes_to(s.files[x].selected, s.files[x].targets, i, t)
            &&& sends(s, s.files[x], t, folds[y])
        }
    &&& forall|y: int, z: int|
        0 <= y < z < from.len() ==> {
            ||| (#[trigger] from[y]).0 < (#[trigger] from[z]).0
            ||| from[y].0 == from[z].0 && from[y].1.before(from[z].1)
        }
    &&& forall|x: int, i: int, t: Oid|
        0 <= x < n && !is_new(t) && #[trigger] goes_to(
            s.files[x].selected,
            s.files[x].targets,
            i,
            t,
        ) ==> from.contains((x, t))
}

proof fn lemma_fold_sends(s: AppV, f: FileV, g: int)
    requires
        f.wf(),
        0 <= g < plan::groups(f.selected, f.targets).len(),
    ensures
        ({
            let p = plan::groups(f.selected, f.targets)[g];
            &&& sends(s, f, p.0, s.fold_of(f, p))
            &&& exists|i: int| #[trigger] goes_to(f.selected, f.targets, i, p.0)
        }),
{
    let p = plan::groups(f.selected, f.targets)[g];
    a_group_has_the_hunks_of_its_target(f.selected, f.targets, g);
    let d = s.fold_of(f, p);
    assert(d.text == patch::applied(patch::lines_of(f.old_full), f.hunks, p.1, 0, 0));
}

/// The folds of the first `g` groups of the file at `x`.
proof fn lemma_folds_of(s: AppV, x: int, g: int) -> (from: Seq<Oid>)
    requires
        0 <= x < s.files.len(),
        s.files[x].wf(),
        0 <= g <= plan::groups(s.files[x].selected, s.files[x].targets).len(),
    ensures
        ({
            let f = s.files[x];
            let gs = plan::groups(f.selected, f.targets);
            let folds = s.folds_of(f, g);
            &&& from.len() == folds.len()
            &&& forall|y: int|
                0 <= y < folds.len() ==> {
                    let t = #[trigger] from[y];
                    &&& !is_new(t)
                    &&& exists|i: int| #[trigger] goes_to(f.selected, f.targets, i, t)
                    &&& sends(s, f, t, folds[y])
                    &&& exists|h: int| 0 <= h < g && (#[trigger] gs[h]).0 == t
                }
            &&& forall|y: int, z: int|
                0 <= y < z < from.len() ==> (#[trigger] from[y]).before(#[trigger] from[z])
            &&& forall|h: int|
                0 <= h < g && !is_new((#[trigger] gs[h]).0) ==> from.contains(gs[h].0)
        }),
    decreases g,
{
    let f = s.files[x];
    let gs = plan::groups(f.selected, f.targets);
    if g == 0 {
        Seq::empty()
    } else {
        let was = lemma_folds_of(s, x, g - 1);
        let p = gs[g - 1];
        lemma_fold_sends(s, f, g - 1);
        plan::one_group_per_target(f.selected, f.targets);
        if is_new(p.0) {
            was
        } else {
            let from = was.push(p.0);
            assert forall|y: int, z: int| 0 <= y < z < from.len() implies (
            #[trigger] from[y]).before(#[trigger] from[z]) by {
                assert(from[y] == was[y]);
                if z < was.len() {
                    assert(from[z] == was[z]);
                } else {
                    let h = choose|h: int| 0 <= h < g - 1 && (#[trigger] gs[h]).0 == was[y];
                    assert(gs[h].0.before(gs[g - 1].0));
                }
            }
            let folds = s.folds_of(f, g);
            assert forall|y: int| 0 <= y < folds.len() implies {
                let t = #[trigger] from[y];
                &&& !is_new(t)
                &&& exists|i: int| #[trigger] goes_to(f.selected, f.targets, i, t)
                &&& sends(s, f, t, folds[y])
                &&& exists|h: int| 0 <= h < g && (#[trigger] gs[h]).0 == t
            } by {
                if y < was.len() {
                    assert(from[y] == was[y]);
                    assert(folds[y] == s.folds_of(f, g - 1)[y]);
                    let h = choose|h: int| 0 <= h < g - 1 && (#[trigger] gs[h]).0 == was[y];
                    assert(gs[h].0 == from[y]);
                } else {
                    assert(gs[g - 1].0 == from[y]);
                }
            }
            assert forall|h: int|
                0 <= h < g && !is_new((#[trigger] gs[h]).0) implies from.contains(gs[h].0) by {
                if h < g - 1 {
                    assert(was.contains(gs[h].0));
                    let y = choose|y: int| 0 <= y < was.len() && was[y] == gs[h].0;
                    assert(from[y] == gs[h].0);
                } else {
                    assert(from[was.len() as int] == gs[h].0);
                }
            }
            from
        }
    }
}

/// Every picked hunk goes where it was sent: for each file and each commit that picked
/// hunks of it go to there is one change on its way there, made of these hunks alone, and
/// there are no others. What goes to the new commit is not among them. They come in the
/// order of the files.
pub proof fn every_picked_hunk_is_sent_where_it_goes(s: AppV, n: int) -> (from: Seq<(int, Oid)>)
    requires
        s.wf(),
        0 <= n <= s.files.len(),
    ensures
        sent(s, s.folds_in(n), n, from),
        n == s.files.len() ==> s.folds() == s.folds_in(n),
    decreases n,
{
    if n == 0 {
        Seq::empty()
    } else {
        let was = every_picked_hunk_is_sent_where_it_goes(s, n - 1);
        let x = n - 1;
        let f = s.files[x];
        assert(f.wf());
        let gs = plan::groups(f.selected, f.targets);
        let g = gs.len() as int;
        let more = lemma_folds_of(s, x, g);
        let from = was + more.map_values(|t: Oid| (x, t));
        let a = s.folds_in(n - 1);
        let b = s.folds_of(f, g);
        let folds = s.folds_in(n);
        assert(folds == a + b);
        assert forall|y: int| 0 <= y < folds.len() implies {
            let (x, t) = #[trigger] from[y];
            &&& 0 <= x < n
            &&& !is_new(t)
            &&& exists|i: int| #[trigger] goes_to(s.files[x].selected, s.files[x].targets, i, t)
            &&& sends(s, s.files[x], t, folds[y])
        } by {
            if y < a.len() {
                assert(from[y] == was[y]);
                assert(folds[y] == a[y]);
            } else {
                assert(from[y] == (x, more[y - a.len()]));
                assert(folds[y] == b[y - a.len()]);
            }
        }
        assert forall|y: int, z: int| 0 <= y < z < from.len() implies {
            ||| (#[trigger] from[y]).0 < (#[trigger] from[z]).0
            ||| from[y].0 == from[z].0 && from[y].1.before(from[z].1)
        } by {
            if z < a.len() {
                assert(from[y] == was[y] && from[z] == was[z]);
            } else {
                assert(from[z] == (x, more[z - a.len()]));
                if y < a.len() {
                    assert(from[y] == was[y]);
                } else {
                    assert(from[y] == (x, more[y - a.len()]));
                }
            }
        }
        assert forall|y: int, i: int, t: Oid|
            0 <= y < n && !is_new(t) && #[trigger] goes_to(
                s.files[y].selected,
                s.files[y].targets,
                i,
                t,
            ) implies from.contains((y, t)) by {
            if y < x {
                assert(was.contains((y, t)));
                let z = choose|z: int| 0 <= z < was.len() && was[z] == (y, t);
                assert(from[z] == (y, t));
            } else {
                lemma_aims(f.selected, f.targets, f.selected.len() as int, t);
                plan::one_group_per_target(f.selected, f.targets);
                assert(tui::aims(f.selected, f.targets, f.selected.len() as int).contains(t));
                let h = choose|h: int| 0 <= h < gs.len() && (#[trigger] gs[h]).0 == t;
                assert(more.contains(gs[h].0));
                let z = choose|z: int| 0 <= z < more.len() && more[z] == t;
                assert(from[was.len() + z] == (y, t));
            }
        }
        from
    }
}

// ── the new commit ──────────────────────────────────────────────────────────

/// The part is what the file gives to the new commit: its path and mode, and its old text
/// with the picked hunks applied that go there, and no others.
pub open spec fn gives(f: FileV, p: PartV) -> bool {
    &&& p.path == f.path
    &&& p.mode == f.mode
    &&& exists|m: Seq<bool>|
        {
            &&& m.len() == f.selected.len()
            &&& forall|i: int|
                0 <= i < m.len() ==> (#[trigger] m[i] <==> goes_to(
                    f.selected,
                    f.targets,
                    i,
                    Oid { w0: 0, w1: 0, w2: 0, w3: 0, w4: 0 },
                ))
            &&& p.text == #[trigger] patch::applied(
                patch::lines_of(f.old_full),
                f.hunks,
                m,
                0,
                0,
            )
        }
}

/// The file has a picked hunk that goes to the new commit.
pub open spec fn has_a_part(f: FileV) -> bool {
    exists|i: int| #[trigger]
        goes_to(f.selected, f.targets, i, Oid { w0: 0, w1: 0, w2: 0, w3: 0, w4: 0 })
}

/// The new commit has a part of each file that has a hunk for it, in the order of the
/// files, and of no other.
pub proof fn the_new_commit_has_its_hunks(s: AppV, n: int) -> (from: Seq<int>)
    requires
        s.wf(),
        0 <= n <= s.files.len(),
    ensures
        from.len() == s.parts_in(n).len(),
        forall|y: int|
            0 <= y < from.len() ==> {
                &&& 0 <= #[trigger] from[y] < n
                &&& has_a_part(s.files[from[y]])
                &&& gives(s.files[from[y]], s.parts_in(n)[y])
            },
        forall|y: int, z: int| 0 <= y < z < from.len() ==> #[trigger] from[y] < #[trigger] from[z],
        forall|x: int| 0 <= x < n && has_a_part(#[trigger] s.files[x]) ==> from.contains(x),
        n == s.files.len() ==> s.parts() == s.parts_in(n),
    decreases n,
{
    if n == 0 {
        Seq::empty()
    } else {
        let was = the_new_commit_has_its_hunks(s, n - 1);
        let x = n - 1;
        let f = s.files[x];
        assert(f.wf());
        let m = plan::to_phantom(f);
        assert(m.contains(true) <==> has_a_part(f)) by {
            if m.contains(true) {
                let i = choose|i: int| 0 <= i < m.len() && m[i] == true;
                assert(goes_to(f.selected, f.targets, i, tui::phantom()));
            }
            if has_a_part(f) {
                let i = choose|i: int| #[trigger]
                    goes_to(f.selected, f.targets, i, Oid { w0: 0, w1: 0, w2: 0, w3: 0, w4: 0 });
                assert(m[i]);
            }
        }
        if m.contains(true) {
            let from = was.push(x);
            let p = s.parts_in(n).last();
            assert(gives(f, p)) by {
                assert(p.text == patch::applied(patch::lines_of(f.old_full), f.hunks, m, 0, 0));
            }
            assert forall|y: int| 0 <= y < from.len() implies {
                &&& 0 <= #[trigger] from[y] < n
                &&& has_a_part(s.files[from[y]])
                &&& gives(s.files[from[y]], s.parts_in(n)[y])
            } by {
                if y < was.len() {
                    assert(from[y] == was[y]);
                    assert(s.parts_in(n)[y] == s.parts_in(n - 1)[y]);
                }
            }
            assert forall|z: int| 0 <= z < n && has_a_part(#[trigger] s.files[z]) implies from.contains(
            z) by {
                if z < x {
                    assert(was.contains(z));
                    let y = choose|y: int| 0 <= y < was.len() && was[y] == z;
                    assert(from[y] == z);
                } else {
                    assert(from[was.len() as int] == x);
                }
            }
            from
        } else {
            was
        }
    }
}

/// The files in which anything is picked are named, each once and in order, and no others.
pub proof fn the_picked_paths_are_named(s: AppV, n: int)
    requires
        0 <= n <= s.files.len(),
    ensures
        s.picked_paths_in(n) == s.files.take(n).filter(
            |f: FileV| f.selected.contains(true),
        ).map_values(|f: FileV| f.path),
        n == s.files.len() ==> s.picked_paths() == s.picked_paths_in(n),
    decreases n,
{
    reveal(Seq::filter);
    let all = s.files.take(n);
    let p = |f: FileV| f.selected.contains(true);
    let g = |f: FileV| f.path;
    if n > 0 {
        the_picked_paths_are_named(s, n - 1);
        assert(all.drop_last() =~= s.files.take(n - 1));
        assert(s.picked_paths_in(n) =~= all.filter(p).map_values(g));
    } else {
        assert(s.picked_paths_in(n) =~= all.filter(p).map_values(g));
    }
}

/// The trees that the parts are laid into one after another.
pub open spec fn laid(k: Known, parts: Seq<PartV>, trees: Seq<Oid>) -> bool {
    &&& trees.len() == parts.len() + 1
    &&& forall|i: int| 0 <= i < parts.len() ==> #[trigger] laid_one(k, parts[i], trees, i)
}

/// The part is put into the tree at `i` as a blob of its text, at its path and with its
/// mode, and that gives the next one.
pub open spec fn laid_one(k: Known, p: PartV, trees: Seq<Oid>, i: int) -> bool {
    let q = QueryV::Blob(p.text);
    &&& k.contains_key(q)
    &&& k[q] matches AnswerV::Object(blob) && engine::set_path_in(
        k,
        trees[i],
        p.path,
        Some((blob, p.mode)),
    ) == AskV::Have(trees[i + 1])
}

proof fn lemma_laid(k: Known, parts: Seq<PartV>, i: int, tree: Oid) -> (trees: Seq<Oid>)
    requires
        0 <= i <= parts.len(),
        plan::laid_in(k, parts, i, tree) is Have,
    ensures
        laid(k, parts.skip(i), trees),
        trees[0] == tree,
        trees.last() == plan::laid_in(k, parts, i, tree)->Have_0,
    decreases parts.len() - i,
{
    if i == parts.len() {
        seq![tree]
    } else {
        let blob = store::object_in(k, QueryV::Blob(parts[i].text))->Have_0;
        let next = engine::set_path_in(
            k,
            tree,
            parts[i].path,
            Some((blob, parts[i].mode)),
        )->Have_0;
        let rest = lemma_laid(k, parts, i + 1, next);
        let trees = seq![tree] + rest;
        let now = parts.skip(i);
        assert forall|j: int| 0 <= j < now.len() implies #[trigger] laid_one(
            k,
            now[j],
            trees,
            j,
        ) by {
            assert(now[j] == parts[i + j]);
            if j > 0 {
                assert(parts.skip(i + 1)[j - 1] == parts[i + j]);
                assert(laid_one(k, parts.skip(i + 1)[j - 1], rest, j - 1));
                assert(trees[j] == rest[j - 1]);
                assert(trees[j + 1] == rest[j]);
            } else {
                assert(trees[1] == rest[0]);
            }
        }
        assert(trees.last() == rest.last());
        trees
    }
}

/// A new commit is made on top of its parent, under its message. Its tree is the parent's
/// with every part put in, one after another, and nothing else.
pub proof fn a_woven_commit_has_its_parts(k: Known, w: WeavingV) -> (trees: Seq<Oid>)
    requires
        plan::woven_in(k, w) is Have,
    ensures
        laid(k, w.parts, trees),
        k.contains_key(QueryV::Commit(w.parent)),
        k[QueryV::Commit(w.parent)] matches AnswerV::Commit(c) && c.tree == trees[0],
        ({
            let q = QueryV::Create {
                tree: trees.last(),
                parent: w.parent,
                message: w.message,
                like: None,
            };
            k.contains_key(q) && k[q] == AnswerV::Object(plan::woven_in(k, w)->Have_0)
        }),
{
    let c = store::commit_in(k, w.parent)->Have_0;
    let trees = lemma_laid(k, w.parts, 0, c.tree);
    assert(w.parts.skip(0) =~= w.parts);
    trees
}

// ── helpers of the screen ───────────────────────────────────────────────────

/// A cursor goes as far as it is told, but not past either end of its list.
pub proof fn a_cursor_stays_in_its_list(cur: int, len: int, delta: int)
    requires
        0 <= cur,
        0 <= len,
    ensures
        ({
            let to = tui::stepped(cur, len, delta);
            &&& len == 0 ==> to == 0
            &&& len > 0 ==> 0 <= to < len
            &&& 0 <= cur + delta < len ==> to == cur + delta
            &&& len > 0 && cur + delta < 0 ==> to == 0
            &&& len > 0 && cur + delta >= len ==> to == len - 1
        }),
{
}

/// Every hunk of every file has a place in the list: file by file, and in each file in
/// order.
pub proof fn the_list_has_every_hunk(counts: Seq<usize>)
    requires
        counts.len() <= usize::MAX,
    ensures
        forall|f: int, h: int|
            0 <= f < counts.len() && 0 <= h < counts[f] ==> #[trigger] tui::flattened(
                counts,
            ).contains((f as usize, h as usize)),
        forall|x: int|
            0 <= x < tui::flattened(counts).len() ==> {
                let (f, h) = #[trigger] tui::flattened(counts)[x];
                f < counts.len() && h < counts[f as int]
            },
        forall|x: int, y: int|
            0 <= x < y < tui::flattened(counts).len() ==> {
                let (a, b) = (
                    #[trigger] tui::flattened(counts)[x],
                    #[trigger] tui::flattened(counts)[y],
                );
                a.0 < b.0 || (a.0 == b.0 && a.1 < b.1)
            },
    decreases counts.len(),
{
    if counts.len() > 0 {
        let front = counts.drop_last();
        let z = counts.len() - 1;
        the_list_has_every_hunk(front);
        let was = tui::flattened(front);
        let more = tui::hunks_in(z as usize, counts.last() as nat);
        let all = tui::flattened(counts);
        assert(all == was + more);
        assert forall|f: int, h: int|
            0 <= f < counts.len() && 0 <= h < counts[f] implies #[trigger] all.contains(
            (f as usize, h as usize),
        ) by {
            if f < z {
                assert(front[f] == counts[f]);
                assert(was.contains((f as usize, h as usize)));
                let x = choose|x: int| 0 <= x < was.len() && was[x] == (f as usize, h as usize);
                assert(all[x] == (f as usize, h as usize));
            } else {
                assert(all[was.len() + h] == (f as usize, h as usize));
            }
        }
        assert forall|x: int| 0 <= x < all.len() implies {
            let (f, h) = #[trigger] all[x];
            f < counts.len() && h < counts[f as int]
        } by {
            if x < was.len() {
                assert(all[x] == was[x]);
                assert(front[was[x].0 as int] == counts[was[x].0 as int]);
            } else {
                assert(all[x] == more[x - was.len()]);
            }
        }
        assert forall|x: int, y: int| 0 <= x < y < all.len() implies {
            let (a, b) = (#[trigger] all[x], #[trigger] all[y]);
            a.0 < b.0 || (a.0 == b.0 && a.1 < b.1)
        } by {
            if y < was.len() {
                assert(all[x] == was[x] && all[y] == was[y]);
            } else {
                assert(all[y] == more[y - was.len()]);
                if x < was.len() {
                    assert(all[x] == was[x]);
                } else {
                    assert(all[x] == more[x - was.len()]);
                }
            }
        }
    }
}

/// A text that fits is shown as it is; a longer one is cut so that it fits, and ends in an
/// ellipsis.
pub proof fn a_long_text_is_cut(s: Seq<char>, max: nat)
    ensures
        s.len() <= max ==> tui::truncated(s, max) == s,
        s.len() > max && max > 0 ==> {
            let t = tui::truncated(s, max);
            &&& t.len() == max
            &&& t.take(max - 1) == s.take(max - 1)
            &&& t.last() == '…'
        },
{
    reveal_strlit("…");
    if s.len() > max && max > 0 {
        let t = tui::truncated(s, max);
        assert(t.take(max - 1) =~= s.take(max - 1));
    }
}

/// The body of a message is what stands after its first empty line, up to the white space
/// at its end; a message without an empty line has none.
pub proof fn the_body_follows_the_first_empty_line(head: Seq<char>, tail: Seq<char>)
    requires
        forall|i: int, j: int|
            0 <= i && j == i + 1 && j < head.len() ==> !(#[trigger] head[i] == '\n'
                && #[trigger] head[j] == '\n'),
        head.len() > 0 ==> head.last() != '\n',
    ensures
        tui::body(head + seq!['\n', '\n'] + tail) == text::trimmed_end(tail),
        tui::body(head).len() == 0,
{
    reveal_strlit("\n\n");
    let gap = "\n\n"@;
    let msg = head + seq!['\n', '\n'] + tail;
    let n = head.len() as int;
    assert(msg.subrange(n, n + 2) =~= gap);
    assert(text::occurs_at(msg, gap, n));
    assert forall|j: int| 0 <= j < n implies !text::occurs_at(msg, gap, j) by {
        if text::occurs_at(msg, gap, j) {
            lemma_gap(msg, j);
            assert(head[j] == msg[j]);
            if j < n - 1 {
                assert(head[j + 1] == msg[j + 1]);
            }
        }
    }
    let i = choose|i: int| tui::first_gap(msg, i);
    assert(tui::first_gap(msg, n));
    assert(i == n);
    assert(msg.skip(n + 2) =~= tail);
    if text::holds(head, gap) {
        let i = choose|i: int| text::occurs_at(head, gap, i);
        lemma_gap(head, i);
        assert(head[i] == '\n' && head[i + 1] == '\n');
    }
}

proof fn lemma_gap(msg: Seq<char>, j: int)
    requires
        text::occurs_at(msg, "\n\n"@, j),
    ensures
        0 <= j < msg.len() - 1,
        msg[j] == '\n',
        msg[j + 1] == '\n',
{
    reveal_strlit("\n\n");
    let gap = "\n\n"@;
    assert(msg.subrange(j, j + 2)[0] == gap[0]);
    assert(msg.subrange(j, j + 2)[1] == gap[1]);
}

} // verus!
