//! What the picked hunks amount to: changes on their way to commits, or the files of
//! a new commit.

use crate::absorb;
use crate::absorb::{Fold, FoldV};
use crate::engine;
use crate::oid::Oid;
use crate::patch;
use crate::store;
use crate::store::{Ask, AskV, Known, Query, QueryV, Seen};
use crate::text;
use crate::tui;
use crate::tui::{App, AppV, FileV, Source};
use vstd::prelude::*;

verus! {

// ── grouping hunks by their target ──────────────────────────────────────────

/// A sorted list with one more commit, unless it is there.
pub open spec fn sorted_with(s: Seq<Oid>, t: Oid) -> Seq<Oid>
    decreases s.len(),
{
    if s.len() == 0 {
        seq![t]
    } else if t.before(s.last()) {
        sorted_with(s.drop_last(), t).push(s.last())
    } else if s.last() == t {
        s
    } else {
        s.push(t)
    }
}

/// The different commits, sorted.
pub open spec fn distinct(r: Seq<Oid>) -> Seq<Oid>
    decreases r.len(),
{
    if r.len() == 0 {
        Seq::empty()
    } else {
        sorted_with(distinct(r.drop_last()), r.last())
    }
}

/// Selected hunks grouped by target commit, each group as a selection of its own.
pub open spec fn groups(selected: Seq<bool>, targets: Seq<Option<Oid>>) -> Seq<(Oid, Seq<bool>)> {
    let n = if selected.len() < targets.len() {
        selected.len()
    } else {
        targets.len()
    };
    let ts = distinct(tui::aims(selected, targets, n as int));
    Seq::new(ts.len(), |i: int| (ts[i], tui::mask(selected, targets, ts[i])))
}

/// Groups by their contents.
pub open spec fn groups_view(v: Seq<(Oid, Vec<bool>)>) -> Seq<(Oid, Seq<bool>)> {
    v.map_values(|g: (Oid, Vec<bool>)| (g.0, g.1@))
}

/// Put a commit into a sorted list, unless it is there.
fn put_sorted(v: &mut Vec<Oid>, t: Oid)
    ensures
        final(v)@ == sorted_with(old(v)@, t),
{
    let ghost s = v@;
    let mut i: usize = v.len();
    assert(s.take(i as int) =~= s);
    assert(sorted_with(s, t) + s.skip(i as int) =~= sorted_with(s, t));
    while i > 0 && t.is_before(&v[i - 1])
        invariant
            v@ == s,
            0 <= i <= s.len(),
            sorted_with(s, t) == sorted_with(s.take(i as int), t) + s.skip(i as int),
        decreases i,
    {
        assert(s.take(i as int).drop_last() =~= s.take(i - 1));
        assert(s.take(i as int).last() == s[i - 1]);
        assert(sorted_with(s.take(i - 1), t).push(s[i - 1]) + s.skip(i as int) =~= sorted_with(
            s.take(i - 1),
            t,
        ) + s.skip(i - 1));
        i -= 1;
    }
    if i > 0 && v[i - 1] == t {
        assert(s.take(i as int) + s.skip(i as int) =~= s);
        return;
    }
    v.insert(i, t);
    assert(v@ =~= s.take(i as int).push(t) + s.skip(i as int));
    assert(i == 0 ==> s.take(i as int).push(t) =~= seq![t]);
}

/// Selected hunks grouped by target commit, each as a per-hunk mask. One entry per
/// distinct target; deselected and no-target hunks are left out.
pub fn recipe_groups(selected: &Vec<bool>, targets: &Vec<Option<Oid>>) -> (v: Vec<
    (Oid, Vec<bool>),
>)
    ensures
        groups_view(v@) == groups(selected@, targets@),
{
    let mut ts: Vec<Oid> = Vec::new();
    let mut i: usize = 0;
    while i < selected.len() && i < targets.len()
        invariant
            0 <= i <= selected@.len(),
            i <= targets@.len(),
            ts@ == distinct(tui::aims(selected@, targets@, i as int)),
        decreases selected@.len() - i,
    {
        if selected[i] {
            if let Some(t) = targets[i] {
                let ghost front = tui::aims(selected@, targets@, i as int);
                assert(front.push(t).drop_last() =~= front);
                put_sorted(&mut ts, t);
            }
        }
        i += 1;
    }
    let ghost all = groups(selected@, targets@);
    let mut v: Vec<(Oid, Vec<bool>)> = Vec::new();
    let mut j: usize = 0;
    assert(groups_view(v@) =~= all.take(0));
    while j < ts.len()
        invariant
            0 <= j <= ts@.len(),
            all.len() == ts@.len(),
            forall|x: int|
                0 <= x < ts@.len() ==> (#[trigger] all[x]) == (
                    ts@[x],
                    tui::mask(selected@, targets@, ts@[x]),
                ),
            groups_view(v@) == all.take(j as int),
        decreases ts@.len() - j,
    {
        let ghost before = groups_view(v@);
        let t = ts[j];
        let m = tui::mask_for_target(selected, targets, t);
        let ghost mv = m@;
        v.push((t, m));
        assert(groups_view(v@) =~= before.push((t, mv)));
        j += 1;
        assert(all.take(j as int) =~= all.take(j - 1).push(all[j - 1]));
    }
    assert(all.take(j as int) =~= all);
    v
}

proof fn lemma_sorted_with(s: Seq<Oid>, t: Oid)
    requires
        ascending(s),
    ensures
        ascending(sorted_with(s, t)),
        forall|o: Oid| #[trigger] sorted_with(s, t).contains(o) <==> s.contains(o) || o == t,
        s.len() > 0 && t.before(s.last()) ==> sorted_with(s, t).last() == s.last(),
        sorted_with(s, t).len() > 0,
        forall|o: Oid|
            (forall|i: int| 0 <= i < s.len() ==> (#[trigger] s[i]).before(o)) && t.before(o)
                ==> forall|i: int|
                0 <= i < sorted_with(s, t).len() ==> (#[trigger] sorted_with(s, t)[i]).before(o),
    decreases s.len(),
{
    let r = sorted_with(s, t);
    if s.len() == 0 {
        assert(r[0] == t);
    } else if t.before(s.last()) {
        let front = s.drop_last();
        let last = s.last();
        lemma_sorted_with(front, t);
        let q = sorted_with(front, t);
        assert(forall|i: int| 0 <= i < front.len() ==> (#[trigger] front[i]).before(last));
        assert(r =~= q.push(last));
        assert forall|o: Oid| #[trigger] r.contains(o) <==> s.contains(o) || o == t by {
            assert(s =~= front.push(last));
            lemma_push(q, last, o);
            lemma_push(front, last, o);
            assert(q.contains(o) <==> front.contains(o) || o == t);
        }
    } else {
        crate::oid::order_is_total(t, s.last(), t);
        if s.last() != t {
            assert forall|i: int| 0 <= i < s.len() implies (#[trigger] s[i]).before(t) by {
                crate::oid::order_is_total(s[i], s.last(), t);
            }
            assert forall|o: Oid| #[trigger] r.contains(o) <==> s.contains(o) || o == t by {
                lemma_push(s, t, o);
            }
        } else {
            assert(s[s.len() - 1] == t);
        }
    }
}

proof fn lemma_push(s: Seq<Oid>, x: Oid, o: Oid)
    ensures
        s.push(x).contains(o) <==> s.contains(o) || o == x,
{
    if s.contains(o) {
        let j = s.index_of(o);
        assert(s.push(x)[j] == o);
    }
    if o == x {
        assert(s.push(x)[s.len() as int] == o);
    }
    if s.push(x).contains(o) && o != x {
        let j = s.push(x).index_of(o);
        assert(s[j] == o);
    }
}

/// Each comes before the next in byte order.
pub open spec fn ascending(s: Seq<Oid>) -> bool {
    forall|i: int, j: int| 0 <= i < j < s.len() ==> (#[trigger] s[i]).before(#[trigger] s[j])
}

/// There is one group for each target that a picked hunk has, and for no other; the
/// groups are sorted, so the same picks give the same plan.
pub proof fn one_group_per_target(selected: Seq<bool>, targets: Seq<Option<Oid>>)
    requires
        selected.len() == targets.len(),
    ensures
        forall|i: int, j: int|
            0 <= i < j < groups(selected, targets).len() ==> (#[trigger] groups(
                selected,
                targets,
            )[i]).0.before((#[trigger] groups(selected, targets)[j]).0),
        forall|t: Oid|
            (exists|i: int|
                0 <= i < groups(selected, targets).len() && (#[trigger] groups(
                    selected,
                    targets,
                )[i]).0 == t) <==> #[trigger] tui::aims(
                selected,
                targets,
                selected.len() as int,
            ).contains(t),
{
    let r = tui::aims(selected, targets, selected.len() as int);
    let ts = distinct(r);
    let g = groups(selected, targets);
    lemma_distinct(r);
    assert forall|t: Oid|
        (exists|i: int| 0 <= i < g.len() && (#[trigger] g[i]).0 == t) <==> #[trigger] r.contains(
            t,
        ) by {
        if r.contains(t) {
            assert(ts.contains(t));
            let i = ts.index_of(t);
            assert(g[i].0 == t);
        }
        if exists|i: int| 0 <= i < g.len() && (#[trigger] g[i]).0 == t {
            let i = choose|i: int| 0 <= i < g.len() && (#[trigger] g[i]).0 == t;
            assert(ts[i] == t);
            assert(ts.contains(t));
        }
    }
}

proof fn lemma_distinct(r: Seq<Oid>)
    ensures
        ascending(distinct(r)),
        forall|o: Oid| #[trigger] distinct(r).contains(o) <==> r.contains(o),
    decreases r.len(),
{
    if r.len() > 0 {
        let front = r.drop_last();
        lemma_distinct(front);
        lemma_sorted_with(distinct(front), r.last());
        assert forall|o: Oid| #[trigger] distinct(r).contains(o) <==> r.contains(o) by {
            assert(r =~= front.push(r.last()));
            lemma_push(front, r.last(), o);
            assert(distinct(front).contains(o) <==> front.contains(o));
        }
    }
}

// ── changes on their way to commits ─────────────────────────────────────────

impl AppV {
    /// The commit that a change is taken out of when it goes to `to`: the source
    /// commit, where that is older. Moving a commit's hunk BACKWARD needs no removal —
    /// replaying the source onto a chain that already has the change absorbs it.
    pub open spec fn taken_from(self, to: Oid) -> Option<Oid> {
        match self.source {
            Source::Commit(src) => if self.is_newer(to, src) {
                Some(src)
            } else {
                None
            },
            _ => None,
        }
    }

    /// A group of a file's hunks on its way to its target.
    pub open spec fn fold_of(self, f: FileV, g: (Oid, Seq<bool>)) -> FoldV {
        FoldV {
            path: f.path,
            header: Seq::empty(),
            text: patch::applied(patch::lines_of(f.old_full), f.hunks, g.1, 0, 0),
            mode: f.mode,
            target: g.0,
            revert: self.taken_from(g.0),
        }
    }

    /// The first `n` groups of a file; those that go to a new commit are carried by
    /// that commit, not by an edit.
    pub open spec fn folds_of(self, f: FileV, n: int) -> Seq<FoldV>
        decreases n,
    {
        if n <= 0 {
            Seq::empty()
        } else {
            let front = self.folds_of(f, n - 1);
            let g = groups(f.selected, f.targets)[n - 1];
            if g.0 == tui::phantom() {
                front
            } else {
                front.push(self.fold_of(f, g))
            }
        }
    }

    /// Every picked change on its way to its target, for the first `n` files.
    pub open spec fn folds_in(self, n: int) -> Seq<FoldV>
        decreases n,
    {
        if n <= 0 {
            Seq::empty()
        } else {
            let f = self.files[n - 1];
            self.folds_in(n - 1) + self.folds_of(f, groups(f.selected, f.targets).len() as int)
        }
    }

    /// Every picked change on its way to its target.
    pub open spec fn folds(self) -> Seq<FoldV> {
        self.folds_in(self.files.len() as int)
    }
}

impl App {
    /// See [`AppV::taken_from`].
    fn taken_from(&self, to: Oid) -> (r: Option<Oid>)
        ensures
            r == self@.taken_from(to),
    {
        match self.source {
            Source::Commit(src) => if self.is_newer(to, src) {
                Some(src)
            } else {
                None
            },
            _ => None,
        }
    }

    /// Append the changes of one file.
    fn fold_file(&self, folds: &mut Vec<Fold>, i: usize)
        requires
            i < self.files@.len(),
        ensures
            absorb::folds_view(final(folds)@) == absorb::folds_view(old(folds)@)
                + self@.folds_of(
                self@.files[i as int],
                groups(
                    self@.files[i as int].selected,
                    self@.files[i as int].targets,
                ).len() as int,
            ),
    {
        let f = &self.files[i];
        let ghost fv = self@.files[i as int];
        assert(fv == f@);
        let gs = recipe_groups(&f.selected, &f.targets);
        let ghost gv = groups(fv.selected, fv.targets);
        let ghost start = absorb::folds_view(folds@);
        let mut j: usize = 0;
        assert(start + self@.folds_of(fv, 0) =~= start);
        assert(groups_view(gs@).len() == gs@.len());
        while j < gs.len()
            invariant
                fv == f@,
                gv == groups(fv.selected, fv.targets),
                groups_view(gs@) == gv,
                gs@.len() == gv.len(),
                0 <= j <= gs@.len(),
                absorb::folds_view(folds@) == start + self@.folds_of(fv, j as int),
            decreases gs@.len() - j,
        {
            let t = gs[j].0;
            assert(gv[j as int] == groups_view(gs@)[j as int]);
            assert(gv[j as int] == (gs@[j as int].0, gs@[j as int].1@));
            if t != tui::phantom() {
                let text = patch::apply_selected(&f.old_full, &f.hunks, &gs[j].1);
                let header = String::new();
                assert(header@ =~= Seq::empty());
                let fold = Fold {
                    path: f.path.clone(),
                    header,
                    text,
                    mode: f.mode,
                    target: t,
                    revert: self.taken_from(t),
                };
                let ghost before = absorb::folds_view(folds@);
                let ghost one = fold@;
                assert(one =~= self@.fold_of(fv, gv[j as int]));
                folds.push(fold);
                assert(absorb::folds_view(folds@) =~= before.push(one));
                assert(before.push(one) =~= start + self@.folds_of(fv, j as int).push(one));
            }
            j += 1;
        }
    }

    /// Every picked change on its way to its target: each group of a file's hunks with
    /// one target becomes one change to be applied there.
    pub fn folds(&self) -> (folds: Vec<Fold>)
        ensures
            absorb::folds_view(folds@) == self@.folds(),
    {
        let mut folds: Vec<Fold> = Vec::new();
        let mut i: usize = 0;
        assert(absorb::folds_view(folds@) =~= self@.folds_in(0));
        while i < self.files.len()
            invariant
                0 <= i <= self.files@.len(),
                absorb::folds_view(folds@) == self@.folds_in(i as int),
            decreases self.files@.len() - i,
        {
            self.fold_file(&mut folds, i);
            i += 1;
        }
        folds
    }
}

// ── the files of a new commit ───────────────────────────────────────────────

/// One file of a new commit.
#[derive(Debug)]
pub struct Part {
    pub path: String,
    pub text: String,
    pub mode: i32,
}

/// A [`Part`] by its contents.
#[verifier::ext_equal]
pub struct PartV {
    pub path: Seq<char>,
    pub text: Seq<char>,
    pub mode: i32,
}

impl View for Part {
    type V = PartV;

    open spec fn view(&self) -> PartV {
        PartV { path: self.path@, text: self.text@, mode: self.mode }
    }
}

/// Parts by their contents.
pub open spec fn parts_view(v: Seq<Part>) -> Seq<PartV> {
    v.map_values(|p: Part| p@)
}

/// The hunks of a file that go to a new commit.
pub open spec fn to_phantom(f: FileV) -> Seq<bool> {
    tui::mask(f.selected, f.targets, tui::phantom())
}

impl AppV {
    /// The files that a new commit gets its hunks from, of the first `n`.
    pub open spec fn parts_in(self, n: int) -> Seq<PartV>
        decreases n,
    {
        if n <= 0 {
            Seq::empty()
        } else {
            let f = self.files[n - 1];
            let front = self.parts_in(n - 1);
            if to_phantom(f).contains(true) {
                front.push(
                    PartV {
                        path: f.path,
                        text: patch::applied(
                            patch::lines_of(f.old_full),
                            f.hunks,
                            to_phantom(f),
                            0,
                            0,
                        ),
                        mode: f.mode,
                    },
                )
            } else {
                front
            }
        }
    }

    /// The files that a new commit gets its hunks from: each with those hunks applied
    /// and no others.
    pub open spec fn parts(self) -> Seq<PartV> {
        self.parts_in(self.files.len() as int)
    }

    /// The paths of the files in which anything is picked, of the first `n`.
    pub open spec fn picked_paths_in(self, n: int) -> Seq<Seq<char>>
        decreases n,
    {
        if n <= 0 {
            Seq::empty()
        } else if self.files[n - 1].selected.contains(true) {
            self.picked_paths_in(n - 1).push(self.files[n - 1].path)
        } else {
            self.picked_paths_in(n - 1)
        }
    }

    /// The paths of the files in which anything is picked.
    pub open spec fn picked_paths(self) -> Seq<Seq<char>> {
        self.picked_paths_in(self.files.len() as int)
    }
}

fn any(v: &Vec<bool>) -> (b: bool)
    ensures
        b == v@.contains(true),
{
    let mut i: usize = 0;
    while i < v.len()
        invariant
            0 <= i <= v@.len(),
            forall|j: int| 0 <= j < i ==> !v@[j],
        decreases v@.len() - i,
    {
        if v[i] {
            assert(v@[i as int]);
            return true;
        }
        i += 1;
    }
    false
}

impl App {
    /// See [`AppV::parts`].
    pub fn parts(&self) -> (v: Vec<Part>)
        ensures
            parts_view(v@) == self@.parts(),
    {
        let mut v: Vec<Part> = Vec::new();
        let mut i: usize = 0;
        assert(parts_view(v@) =~= self@.parts_in(0));
        while i < self.files.len()
            invariant
                0 <= i <= self.files@.len(),
                parts_view(v@) == self@.parts_in(i as int),
            decreases self.files@.len() - i,
        {
            let f = &self.files[i];
            assert(self@.files[i as int] == f@);
            let mask = tui::mask_for_target(&f.selected, &f.targets, tui::phantom());
            if any(&mask) {
                let text = patch::apply_selected(&f.old_full, &f.hunks, &mask);
                let part = Part { path: f.path.clone(), text, mode: f.mode };
                let ghost before = parts_view(v@);
                let ghost one = part@;
                v.push(part);
                assert(parts_view(v@) =~= before.push(one));
            }
            i += 1;
        }
        v
    }

    /// The paths of the files in which anything is picked.
    pub fn picked_paths(&self) -> (v: Vec<String>)
        ensures
            text::texts(v@) == self@.picked_paths(),
    {
        let mut v: Vec<String> = Vec::new();
        let mut i: usize = 0;
        assert(text::texts(v@) =~= self@.picked_paths_in(0));
        while i < self.files.len()
            invariant
                0 <= i <= self.files@.len(),
                text::texts(v@) == self@.picked_paths_in(i as int),
            decreases self.files@.len() - i,
        {
            assert(self@.files[i as int] == self.files@[i as int]@);
            if any(&self.files[i].selected) {
                let ghost before = text::texts(v@);
                v.push(self.files[i].path.clone());
                assert(text::texts(v@) =~= before.push(self.files@[i as int].path@));
            }
            i += 1;
        }
        v
    }
}

/// A new commit in the making.
#[derive(Debug)]
pub struct Weaving {
    pub parent: Oid,
    pub parts: Vec<Part>,
    pub message: String,
}

/// A [`Weaving`] by its contents.
#[verifier::ext_equal]
pub struct WeavingV {
    pub parent: Oid,
    pub parts: Seq<PartV>,
    pub message: Seq<char>,
}

impl View for Weaving {
    type V = WeavingV;

    open spec fn view(&self) -> WeavingV {
        WeavingV {
            parent: self.parent,
            parts: parts_view(self.parts@),
            message: self.message@,
        }
    }
}

/// `tree` with the files `parts[i..]`.
pub open spec fn laid_in(k: Known, parts: Seq<PartV>, i: int, tree: Oid) -> AskV<Oid>
    decreases parts.len() - i,
{
    if i < 0 || i >= parts.len() {
        AskV::Have(tree)
    } else {
        match store::object_in(k, QueryV::Blob(parts[i].text)) {
            AskV::Need(q) => AskV::Need(q),
            AskV::Fail(e) => AskV::Fail(e),
            AskV::Have(blob) => match engine::set_path_in(
                k,
                tree,
                parts[i].path,
                Some((blob, parts[i].mode)),
            ) {
                AskV::Need(q) => AskV::Need(q),
                AskV::Fail(e) => AskV::Fail(e),
                AskV::Have(t) => laid_in(k, parts, i + 1, t),
            },
        }
    }
}

/// The commit on top of the parent that differs from it in these files, and in
/// nothing else.
pub open spec fn woven_in(k: Known, w: WeavingV) -> AskV<Oid> {
    match store::commit_in(k, w.parent) {
        AskV::Need(q) => AskV::Need(q),
        AskV::Fail(e) => AskV::Fail(e),
        AskV::Have(c) => match laid_in(k, w.parts, 0, c.tree) {
            AskV::Need(q) => AskV::Need(q),
            AskV::Fail(e) => AskV::Fail(e),
            AskV::Have(tree) => store::object_in(
                k,
                QueryV::Create { tree, parent: w.parent, message: w.message, like: None },
            ),
        },
    }
}

impl Weaving {
    /// The tree with the files, as far as the answers go.
    fn lay(&self, seen: &Seen, from: Oid) -> (r: Ask<Oid>)
        ensures
            r@ == laid_in(seen@, self@.parts, 0, from),
    {
        let mut tree = from;
        let mut i: usize = 0;
        while i < self.parts.len()
            invariant
                0 <= i <= self.parts@.len(),
                laid_in(seen@, self@.parts, i as int, tree) == laid_in(
                    seen@,
                    self@.parts,
                    0,
                    from,
                ),
            decreases self.parts@.len() - i,
        {
            let p = &self.parts[i];
            assert(self@.parts[i as int] == p@);
            let blob = match seen.object(Query::Blob(p.text.clone())) {
                Ask::Need(q) => return Ask::Need(q),
                Ask::Fail(e) => return Ask::Fail(e),
                Ask::Have(b) => b,
            };
            tree = match engine::set_path(seen, tree, &p.path, Some((blob, p.mode))) {
                Ask::Need(q) => return Ask::Need(q),
                Ask::Fail(e) => return Ask::Fail(e),
                Ask::Have(t) => t,
            };
            i += 1;
        }
        Ask::Have(tree)
    }

    /// The new commit, as far as the answers go: ONE commit, however many files it
    /// touches.
    pub fn next(&self, seen: &Seen) -> (r: Ask<Oid>)
        ensures
            r@ == woven_in(seen@, self@),
    {
        let from = match seen.commit(self.parent) {
            Ask::Need(q) => return Ask::Need(q),
            Ask::Fail(e) => return Ask::Fail(e),
            Ask::Have(c) => c.tree,
        };
        let tree = match self.lay(seen, from) {
            Ask::Need(q) => return Ask::Need(q),
            Ask::Fail(e) => return Ask::Fail(e),
            Ask::Have(t) => t,
        };
        seen.object(
            Query::Create { tree, parent: self.parent, message: self.message.clone(), like: None },
        )
    }
}

} // verus!
