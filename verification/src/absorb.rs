//! Sending each hunk of a change to the commit that owns its lines.

use crate::engine;
use crate::engine::{Edit, EditV, Recipe, RecipeV};
use crate::git::Stack;
use crate::inference;
use crate::oid::Oid;
use crate::patch;
use crate::patch::{Hunk, HunkV};
use crate::recipe;
use crate::rewrite::{Failure, Outcome};
use crate::store;
use crate::store::{Answer, Ask, AskV, Known, Query, QueryV, Seen};
use crate::text;
use crate::{Error, ErrorV};
use vstd::prelude::*;

verus! {

// ── what changed ────────────────────────────────────────────────────────────

/// How a path differs between two snapshots.
#[derive(Clone, Copy, PartialEq, Eq, Structural, Debug)]
pub enum DeltaKind {
    Modified,
    Added,
    Untracked,
    Other,
}

/// One path that differs between two snapshots.
#[derive(Debug)]
pub struct Delta {
    pub kind: DeltaKind,
    /// Its path, where it can be named.
    pub path: Option<String>,
    pub old: Vec<u8>,
    pub new: Vec<u8>,
    /// The filemode on the changed side.
    pub mode: i32,
    /// The owner of each line of the old content, or why it cannot be told.
    pub blame: Result<Vec<Option<Oid>>, String>,
}

/// A [`Delta`] by its contents.
#[verifier::ext_equal]
pub struct DeltaV {
    pub kind: DeltaKind,
    pub path: Option<Seq<char>>,
    pub old: Seq<u8>,
    pub new: Seq<u8>,
    pub mode: i32,
    pub blame: Result<Seq<Option<Oid>>, Seq<char>>,
}

impl View for Delta {
    type V = DeltaV;

    open spec fn view(&self) -> DeltaV {
        DeltaV {
            kind: self.kind,
            path: crate::opt_text(self.path),
            old: self.old@,
            new: self.new@,
            mode: self.mode,
            blame: match self.blame {
                Ok(b) => Ok(b@),
                Err(m) => Err(m@),
            },
        }
    }
}

/// The deltas by their contents.
pub open spec fn deltas_view(v: Seq<Delta>) -> Seq<DeltaV> {
    v.map_values(|d: Delta| d@)
}

// ── where it goes ───────────────────────────────────────────────────────────

/// A change to one file on its way to a commit.
#[derive(Debug)]
pub struct Fold {
    pub path: String,
    /// The header of the hunk, for display.
    pub header: String,
    /// The file with the change made, and nothing else.
    pub text: String,
    pub mode: i32,
    pub target: Oid,
    /// The commit that the change is taken out of, where it has to be.
    pub revert: Option<Oid>,
}

/// A [`Fold`] by its contents.
#[verifier::ext_equal]
pub struct FoldV {
    pub path: Seq<char>,
    pub header: Seq<char>,
    pub text: Seq<char>,
    pub mode: i32,
    pub target: Oid,
    pub revert: Option<Oid>,
}

impl View for Fold {
    type V = FoldV;

    open spec fn view(&self) -> FoldV {
        FoldV {
            path: self.path@,
            header: self.header@,
            text: self.text@,
            mode: self.mode,
            target: self.target,
            revert: self.revert,
        }
    }
}

/// The folds by their contents.
pub open spec fn folds_view(v: Seq<Fold>) -> Seq<FoldV> {
    v.map_values(|f: Fold| f@)
}

/// Where the hunks of a change go.
#[derive(Debug)]
pub struct Routing {
    pub folds: Vec<Fold>,
    /// What has no home, by its path: a hunk, or a whole file that has no hunks. It
    /// is left where it is.
    pub orphans: Vec<Option<String>>,
}

/// A [`Routing`] by its contents.
#[verifier::ext_equal]
pub struct RoutingV {
    pub folds: Seq<FoldV>,
    pub orphans: Seq<Option<Seq<char>>>,
}

impl View for Routing {
    type V = RoutingV;

    open spec fn view(&self) -> RoutingV {
        RoutingV {
            folds: folds_view(self.folds@),
            orphans: self.orphans@.map_values(|p: Option<String>| crate::opt_text(p)),
        }
    }
}

impl RoutingV {
    pub open spec fn empty() -> RoutingV {
        RoutingV { folds: Seq::empty(), orphans: Seq::empty() }
    }

    pub open spec fn fold(self, f: FoldV) -> RoutingV {
        RoutingV { folds: self.folds.push(f), ..self }
    }

    pub open spec fn orphan(self, path: Option<Seq<char>>) -> RoutingV {
        RoutingV { orphans: self.orphans.push(path), ..self }
    }
}

/// The selection of one hunk out of `n`.
pub open spec fn only(n: nat, i: int) -> Seq<bool> {
    Seq::new(n, |j: int| j == i)
}

/// The file `path` with the first `n` hunks routed: each goes to its target alone,
/// one without a target is an orphan.
pub open spec fn spread(
    r: RoutingV,
    path: Seq<char>,
    old: Seq<char>,
    hunks: Seq<HunkV>,
    targets: Seq<Option<Oid>>,
    mode: i32,
    n: int,
) -> RoutingV
    decreases n,
{
    if n <= 0 {
        r
    } else {
        let before = spread(r, path, old, hunks, targets, mode, n - 1);
        match targets[n - 1] {
            Some(target) => before.fold(
                FoldV {
                    path,
                    header: hunks[n - 1].header,
                    text: patch::applied(
                        patch::lines_of(old),
                        hunks,
                        only(hunks.len(), n - 1),
                        0,
                        0,
                    ),
                    mode,
                    target,
                    revert: None,
                },
            ),
            None => before.orphan(Some(path)),
        }
    }
}

fn pick_one(n: usize, i: usize) -> (v: Vec<bool>)
    ensures
        v@ == only(n as nat, i as int),
{
    let mut v: Vec<bool> = Vec::new();
    let mut j: usize = 0;
    while j < n
        invariant
            0 <= j <= n,
            v@ == only(n as nat, i as int).take(j as int),
        decreases n - j,
    {
        v.push(j == i);
        j += 1;
        assert(only(n as nat, i as int).take(j as int) =~= only(n as nat, i as int).take(
            j - 1,
        ).push(j - 1 == i));
    }
    assert(only(n as nat, i as int).take(j as int) =~= only(n as nat, i as int));
    v
}

impl Routing {
    pub fn new() -> (r: Routing)
        ensures
            r@ == RoutingV::empty(),
    {
        let r = Routing { folds: Vec::new(), orphans: Vec::new() };
        assert(r@ =~= RoutingV::empty());
        r
    }

    fn orphan(&mut self, path: Option<String>)
        ensures
            final(self)@ == old(self)@.orphan(crate::opt_text(path)),
    {
        self.orphans.push(path);
        assert(self@ =~= old(self)@.orphan(crate::opt_text(path)));
    }

    fn fold(&mut self, f: Fold)
        ensures
            final(self)@ == old(self)@.fold(f@),
    {
        self.folds.push(f);
        assert(self@ =~= old(self)@.fold(f@));
    }

    /// Route the hunks of one file, each to its target alone.
    pub fn spread(
        &mut self,
        path: &str,
        old_text: &str,
        hunks: &Vec<Hunk>,
        targets: &Vec<Option<Oid>>,
        mode: i32,
    )
        requires
            targets@.len() == hunks@.len(),
        ensures
            final(self)@ == spread(
                old(self)@,
                path@,
                old_text@,
                patch::views(hunks@),
                targets@,
                mode,
                hunks@.len() as int,
            ),
    {
        let ghost hs = patch::views(hunks@);
        let mut i: usize = 0;
        while i < hunks.len()
            invariant
                targets@.len() == hunks@.len(),
                hs == patch::views(hunks@),
                0 <= i <= hunks@.len(),
                self@ == spread(old(self)@, path@, old_text@, hs, targets@, mode, i as int),
            decreases hunks@.len() - i,
        {
            assert(hs[i as int] == hunks@[i as int]@);
            match targets[i] {
                Some(target) => {
                    let sel = pick_one(hunks.len(), i);
                    let text = patch::apply_selected(old_text, hunks, &sel);
                    self.fold(
                        Fold {
                            path: path.to_owned(),
                            header: hunks[i].header().clone(),
                            text,
                            mode,
                            target,
                            revert: None,
                        },
                    );
                },
                None => self.orphan(Some(path.to_owned())),
            }
            i += 1;
        }
    }
}

/// The file has a line-by-line diff: it was modified, has a name, and is text on both
/// sides.
pub open spec fn textual(d: DeltaV) -> bool {
    &&& d.kind == DeltaKind::Modified
    &&& d.path is Some
    &&& vstd::utf8::valid_utf8(d.old)
    &&& vstd::utf8::valid_utf8(d.new)
}

/// The diffs of some deltas by their contents.
pub open spec fn diffs_view(v: Seq<Result<Vec<Hunk>, String>>) -> Seq<
    Result<Seq<HunkV>, Seq<char>>,
> {
    v.map_values(|r: Result<Vec<Hunk>, String>| patch::diff_view(r))
}

/// The diff of a text file that was modified, or why it cannot be made; of any other,
/// no hunks.
pub open spec fn diff_for(d: DeltaV) -> Result<Seq<HunkV>, Seq<char>> {
    if textual(d) {
        patch::hunks_of(d.old, d.new)
    } else {
        Ok(Seq::empty())
    }
}

/// See [`diff_for`], of each delta.
pub open spec fn diffs_of(deltas: Seq<DeltaV>) -> Seq<Result<Seq<HunkV>, Seq<char>>> {
    deltas.map_values(|d: DeltaV| diff_for(d))
}

/// The file has a line-by-line diff. See [`textual`].
fn is_textual(d: &Delta) -> (b: bool)
    ensures
        b == textual(d@),
{
    d.kind == DeltaKind::Modified && d.path.is_some() && text::decode(&d.old).is_some()
        && text::decode(&d.new).is_some()
}

/// See [`diffs_of`].
pub fn diffs(deltas: &Vec<Delta>) -> (v: Vec<Result<Vec<Hunk>, String>>)
    ensures
        v@.len() == deltas@.len(),
        diffs_view(v@) == diffs_of(deltas_view(deltas@)),
{
    let ghost all = diffs_of(deltas_view(deltas@));
    let mut v: Vec<Result<Vec<Hunk>, String>> = Vec::new();
    let mut i: usize = 0;
    while i < deltas.len()
        invariant
            all == diffs_of(deltas_view(deltas@)),
            0 <= i <= deltas@.len(),
            diffs_view(v@) == all.take(i as int),
        decreases deltas@.len() - i,
    {
        let d = &deltas[i];
        let ghost before = diffs_view(v@);
        let diff = if is_textual(d) {
            patch::diff(&d.old, &d.new)
        } else {
            let none: Result<Vec<Hunk>, String> = Ok(Vec::new());
            assert(patch::diff_view(none)->Ok_0 =~= Seq::empty());
            none
        };
        assert(deltas_view(deltas@)[i as int] == d@);
        assert(patch::diff_view(diff) == all[i as int]);
        v.push(diff);
        i += 1;
        assert(diffs_view(v@) =~= before.push(all[i - 1]));
        assert(all.take(i as int) =~= all.take(i - 1).push(all[i - 1]));
    }
    assert(all.take(i as int) =~= all);
    assert(diffs_view(v@).len() == v@.len());
    v
}

/// One delta routed, by its diff. Only a text file that was modified has hunks with a
/// home; a whole-file add or delete, a path that cannot be named, and a file that is
/// not UTF-8 or has no hunks are left where they are.
pub open spec fn routed_one(
    r: RoutingV,
    d: DeltaV,
    diff: Result<Seq<HunkV>, Seq<char>>,
    window: Seq<Oid>,
) -> Result<RoutingV, ErrorV> {
    if !textual(d) {
        Ok(r.orphan(d.path))
    } else {
        match (diff, d.blame) {
            (Err(m), _) => Err(ErrorV::Git(m)),
            (Ok(hunks), blame) => if hunks.len() == 0 {
                Ok(r.orphan(d.path))
            } else {
                match blame {
                    Err(m) => Err(ErrorV::Git(m)),
                    Ok(b) => Ok(
                        spread(
                            r,
                            d.path->0,
                            vstd::utf8::decode_utf8(d.old),
                            hunks,
                            inference::homes(b, hunks, window),
                            d.mode,
                            hunks.len() as int,
                        ),
                    ),
                }
            },
        }
    }
}

/// The first `n` deltas routed, by their diffs.
pub open spec fn routed(
    deltas: Seq<DeltaV>,
    diffs: Seq<Result<Seq<HunkV>, Seq<char>>>,
    window: Seq<Oid>,
    n: int,
) -> Result<RoutingV, ErrorV>
    decreases n,
{
    if n <= 0 {
        Ok(RoutingV::empty())
    } else {
        match routed(deltas, diffs, window, n - 1) {
            Err(e) => Err(e),
            Ok(r) => routed_one(r, deltas[n - 1], diffs[n - 1], window),
        }
    }
}

/// A routing that was tried, by its contents.
pub open spec fn routing_view(r: Result<Routing, Error>) -> Result<RoutingV, ErrorV> {
    match r {
        Ok(x) => Ok(x@),
        Err(e) => Err(e@),
    }
}

impl Routing {
    /// See [`routed_one`].
    fn route(&mut self, d: &Delta, diff: &Result<Vec<Hunk>, String>, window: &Vec<Oid>) -> (r:
        Result<(), Error>)
        ensures
            match r {
                Ok(_) => routed_one(old(self)@, d@, patch::diff_view(*diff), window@) == Ok::<
                    RoutingV,
                    ErrorV,
                >(final(self)@),
                Err(e) => routed_one(old(self)@, d@, patch::diff_view(*diff), window@) == Err::<
                    RoutingV,
                    ErrorV,
                >(e@),
            },
    {
        let path = match &d.path {
            Some(p) => p.clone(),
            None => {
                self.orphan(None);
                return Ok(());
            },
        };
        if d.kind != DeltaKind::Modified {
            self.orphan(Some(path));
            return Ok(());
        }
        let old_text = match (text::decode(&d.old), text::decode(&d.new)) {
            (Some(o), Some(_)) => o,
            _ => {
                self.orphan(Some(path));
                return Ok(());
            },
        };
        let hunks = match diff {
            Ok(h) => h,
            Err(m) => return Err(Error::Git(m.clone())),
        };
        assert(patch::views(hunks@).len() == hunks@.len());
        if hunks.len() == 0 {
            self.orphan(Some(path));
            return Ok(());
        }
        let blame = match &d.blame {
            Ok(b) => b,
            Err(m) => return Err(Error::Git(m.clone())),
        };
        let targets = inference::infer_targets(blame, hunks, window);
        self.spread(&path, &old_text, hunks, &targets, d.mode);
        Ok(())
    }
}

/// Route every delta, by their diffs. The first diff that could not be made, or blame
/// that cannot be told, is the error.
pub fn route_all(
    deltas: &Vec<Delta>,
    diffs: &Vec<Result<Vec<Hunk>, String>>,
    window: &Vec<Oid>,
) -> (r: Result<Routing, Error>)
    requires
        diffs@.len() == deltas@.len(),
    ensures
        routing_view(r) == routed(
            deltas_view(deltas@),
            diffs_view(diffs@),
            window@,
            deltas@.len() as int,
        ),
{
    let ghost ds = deltas_view(deltas@);
    let ghost fs = diffs_view(diffs@);
    let mut x = Routing::new();
    let mut i: usize = 0;
    while i < deltas.len()
        invariant
            ds == deltas_view(deltas@),
            fs == diffs_view(diffs@),
            diffs@.len() == deltas@.len(),
            0 <= i <= deltas@.len(),
            routed(ds, fs, window@, i as int) == Ok::<RoutingV, ErrorV>(x@),
        decreases deltas@.len() - i,
    {
        assert(ds[i as int] == deltas@[i as int]@);
        assert(fs[i as int] == patch::diff_view(diffs@[i as int]));
        if let Err(e) = x.route(&deltas[i], &diffs[i], window) {
            proof {
                lemma_routed_stops(ds, fs, window@, i + 1, deltas@.len() as int, e@);
            }
            return Err(e);
        }
        i += 1;
    }
    Ok(x)
}

proof fn lemma_routed_stops(
    deltas: Seq<DeltaV>,
    diffs: Seq<Result<Seq<HunkV>, Seq<char>>>,
    window: Seq<Oid>,
    i: int,
    n: int,
    e: ErrorV,
)
    requires
        1 <= i <= n,
        routed(deltas, diffs, window, i) == Err::<RoutingV, ErrorV>(e),
    ensures
        routed(deltas, diffs, window, n) == Err::<RoutingV, ErrorV>(e),
    decreases n - i,
{
    if i < n {
        lemma_routed_stops(deltas, diffs, window, i + 1, n, e);
    }
}

/// Distribute a change hunk by hunk over the commits of `window` (oldest first)
/// that own the changed lines. Hunks with no owner there are orphans.
pub fn collapse(deltas: &Vec<Delta>, window: &Vec<Oid>) -> (r: Result<Routing, Error>)
    ensures
        routing_view(r) == routed(
            deltas_view(deltas@),
            diffs_of(deltas_view(deltas@)),
            window@,
            deltas@.len() as int,
        ),
{
    let diffs = diffs(deltas);
    route_all(deltas, &diffs, window)
}

// ── nothing gets lost ───────────────────────────────────────────────────────

/// How many pieces a delta comes in: its hunks, or the file as a whole.
pub open spec fn pieces(d: DeltaV, diff: Result<Seq<HunkV>, Seq<char>>) -> nat {
    match diff {
        Ok(h) if textual(d) && h.len() > 0 => h.len(),
        _ => 1,
    }
}

/// How many pieces the first `n` deltas come in.
pub open spec fn all_pieces(
    deltas: Seq<DeltaV>,
    diffs: Seq<Result<Seq<HunkV>, Seq<char>>>,
    n: int,
) -> nat
    decreases n,
{
    if n <= 0 {
        0
    } else {
        all_pieces(deltas, diffs, n - 1) + pieces(deltas[n - 1], diffs[n - 1])
    }
}

proof fn lemma_spread_counts(
    r: RoutingV,
    path: Seq<char>,
    old: Seq<char>,
    hunks: Seq<HunkV>,
    targets: Seq<Option<Oid>>,
    mode: i32,
    n: int,
)
    requires
        0 <= n,
    ensures
        ({
            let s = spread(r, path, old, hunks, targets, mode, n);
            &&& s.folds.len() + s.orphans.len() == r.folds.len() + r.orphans.len() + n
            &&& s.orphans.len() >= r.orphans.len()
            &&& s.orphans.len() == r.orphans.len() ==> forall|i: int|
                0 <= i < n ==> (#[trigger] targets[i]) is Some
        }),
    decreases n,
{
    if n > 0 {
        lemma_spread_counts(r, path, old, hunks, targets, mode, n - 1);
    }
}

/// Every piece of the change is either on its way to a commit or left where it is.
pub proof fn every_piece_is_folded_or_left(
    deltas: Seq<DeltaV>,
    diffs: Seq<Result<Seq<HunkV>, Seq<char>>>,
    window: Seq<Oid>,
    n: int,
)
    requires
        0 <= n,
    ensures
        routed(deltas, diffs, window, n) matches Ok(r) ==> r.folds.len() + r.orphans.len()
            == all_pieces(deltas, diffs, n),
    decreases n,
{
    if n > 0 {
        every_piece_is_folded_or_left(deltas, diffs, window, n - 1);
        let d = deltas[n - 1];
        if let (Ok(r), Ok(h), Ok(b)) = (
            routed(deltas, diffs, window, n - 1),
            diffs[n - 1],
            d.blame,
        ) {
            lemma_spread_counts(
                r,
                d.path->0,
                vstd::utf8::decode_utf8(d.old),
                h,
                inference::homes(b, h, window),
                d.mode,
                h.len() as int,
            );
        }
    }
}

/// Where nothing is left over, all of the change is folded: every delta is a text file
/// that was modified, and every hunk of it has a home. Only then is the new tip checked
/// out, so a checkout wipes nothing.
pub proof fn with_no_orphans_everything_is_folded(
    deltas: Seq<DeltaV>,
    diffs: Seq<Result<Seq<HunkV>, Seq<char>>>,
    window: Seq<Oid>,
    n: int,
    i: int,
)
    requires
        0 <= i < n,
        routed(deltas, diffs, window, n) matches Ok(r) && r.orphans.len() == 0,
    ensures
        textual(deltas[i]),
        match (diffs[i], deltas[i].blame) {
            (Ok(h), Ok(b)) => h.len() > 0 && forall|j: int|
                0 <= j < h.len() ==> (#[trigger] inference::homes(b, h, window)[j]) is Some,
            _ => false,
        },
    decreases n,
{
    let d = deltas[n - 1];
    let r = routed(deltas, diffs, window, n - 1)->Ok_0;
    if let (Ok(h), Ok(b)) = (diffs[n - 1], d.blame) {
        lemma_spread_counts(
            r,
            d.path->0,
            vstd::utf8::decode_utf8(d.old),
            h,
            inference::homes(b, h, window),
            d.mode,
            h.len() as int,
        );
    }
    if i < n - 1 {
        with_no_orphans_everything_is_folded(deltas, diffs, window, n - 1, i);
    }
}

// ── what a fold carries ─────────────────────────────────────────────────────

/// The commit is the newest of the window (oldest first) that owns one of the lines that
/// the hunk is blamed on, going by which commit blame names for each line.
pub open spec fn at_home(
    blame: Seq<Option<Oid>>,
    h: HunkV,
    window: Seq<Oid>,
    target: Oid,
) -> bool {
    exists|w: int|
        {
            &&& 0 <= w < window.len()
            &&& #[trigger] window[w] == target
            &&& owns_some(blame, h, target)
            &&& forall|v: int|
                w < v < window.len() ==> !owns_some(blame, h, #[trigger] window[v])
        }
}

/// The commit owns one of the lines that the hunk is blamed on. Lines count from one.
pub open spec fn owns_some(blame: Seq<Option<Oid>>, h: HunkV, c: Oid) -> bool {
    exists|x: int|
        0 <= x < patch::blamed(h).len() && 1 <= #[trigger] patch::blamed(h)[x] <= blame.len()
            && blame[patch::blamed(h)[x] - 1] == Some(c)
}

/// The fold is what becomes of the hunk at `m` of the delta at `q`: of a text file that
/// was modified. It has the delta's path and the delta's mode. Its text is the old one
/// with this hunk applied and no other. It goes to the commit that the hunk belongs to,
/// and nothing is reverted.
pub open spec fn carries(
    f: FoldV,
    deltas: Seq<DeltaV>,
    diffs: Seq<Result<Seq<HunkV>, Seq<char>>>,
    window: Seq<Oid>,
    q: int,
    m: int,
) -> bool {
    let d = deltas[q];
    &&& d.kind == DeltaKind::Modified
    &&& vstd::utf8::valid_utf8(d.old)
    &&& vstd::utf8::valid_utf8(d.new)
    &&& d.path == Some(f.path)
    &&& f.mode == d.mode
    &&& f.revert is None
    &&& match (diffs[q], d.blame) {
        (Ok(h), Ok(b)) => {
            &&& 0 <= m < h.len()
            &&& f.header == h[m].header
            &&& at_home(b, h[m], window, f.target)
            &&& forall|selected: Seq<bool>|
                selected.len() == h.len() && (forall|j: int|
                    0 <= j < h.len() ==> #[trigger] selected[j] == (j == m)) ==> f.text
                    == #[trigger] patch::applied(
                    patch::lines_of(vstd::utf8::decode_utf8(d.old)),
                    h,
                    selected,
                    0,
                    0,
                )
        },
        _ => false,
    }
}

/// The hunk at `m` of the delta at `q` has a home: the delta is a text file that was
/// modified, and a commit of the window owns one of the lines that the hunk is blamed
/// on.
pub open spec fn has_a_home(
    deltas: Seq<DeltaV>,
    diffs: Seq<Result<Seq<HunkV>, Seq<char>>>,
    window: Seq<Oid>,
    q: int,
    m: int,
) -> bool {
    let d = deltas[q];
    &&& d.kind == DeltaKind::Modified
    &&& d.path is Some
    &&& vstd::utf8::valid_utf8(d.old)
    &&& vstd::utf8::valid_utf8(d.new)
    &&& match (diffs[q], d.blame) {
        (Ok(h), Ok(b)) => 0 <= m < h.len() && exists|w: int|
            0 <= w < window.len() && owns_some(b, h[m], #[trigger] window[w]),
        _ => false,
    }
}

/// One place comes before another: an earlier delta, or an earlier hunk of the same.
pub open spec fn earlier(a: (int, int), b: (int, int)) -> bool {
    a.0 < b.0 || (a.0 == b.0 && a.1 < b.1)
}

/// `from` tells of each fold which hunk of which of the first `n` deltas it carries: of
/// the last of them, one of the first `m`. They come in the order of the change, none
/// twice, and every hunk with a home is among them.
pub open spec fn accounts_for(
    folds: Seq<FoldV>,
    deltas: Seq<DeltaV>,
    diffs: Seq<Result<Seq<HunkV>, Seq<char>>>,
    window: Seq<Oid>,
    n: int,
    m: int,
    from: Seq<(int, int)>,
) -> bool {
    &&& from.len() == folds.len()
    &&& forall|x: int|
        0 <= x < folds.len() ==> {
            &&& 0 <= (#[trigger] from[x]).0 < n
            &&& earlier(from[x], (n - 1, m))
            &&& carries(folds[x], deltas, diffs, window, from[x].0, from[x].1)
        }
    &&& forall|x: int, y: int|
        0 <= x < y < from.len() ==> earlier(#[trigger] from[x], #[trigger] from[y])
    &&& forall|q: int, h: int|
        0 <= q < n && earlier((q, h), (n - 1, m)) && #[trigger] has_a_home(
            deltas,
            diffs,
            window,
            q,
            h,
        ) ==> from.contains((q, h))
}

proof fn lemma_homes(blame: Seq<Option<Oid>>, h: HunkV, window: Seq<Oid>)
    ensures
        match inference::newest_owner(blame, patch::blamed(h), window) {
            Some(t) => at_home(blame, h, window, t),
            None => forall|w: int|
                0 <= w < window.len() ==> !owns_some(blame, h, #[trigger] window[w]),
        },
{
    let lines = patch::blamed(h);
    inference::the_target_is_the_newest_owner(blame, lines, window);
    assert forall|c: Oid| #[trigger]
        owns_some(blame, h, c) <==> inference::owns(blame, lines, c) by {
        if owns_some(blame, h, c) {
            let x = choose|x: int|
                0 <= x < lines.len() && 1 <= #[trigger] lines[x] <= blame.len() && blame[lines[x]
                    - 1] == Some(c);
            assert(inference::owner(blame, lines[x]) == Some(c));
        }
        if inference::owns(blame, lines, c) {
            let x = choose|x: int|
                0 <= x < lines.len() && inference::owner(blame, #[trigger] lines[x]) == Some(c);
            assert(1 <= lines[x] <= blame.len());
        }
    }
}

proof fn lemma_accounts_spread(
    r: RoutingV,
    deltas: Seq<DeltaV>,
    diffs: Seq<Result<Seq<HunkV>, Seq<char>>>,
    window: Seq<Oid>,
    n: int,
    m: int,
    from: Seq<(int, int)>,
) -> (to: Seq<(int, int)>)
    requires
        0 < n,
        textual(deltas[n - 1]),
        match (diffs[n - 1], deltas[n - 1].blame) {
            (Ok(h), Ok(_)) => 0 <= m <= h.len(),
            _ => false,
        },
        accounts_for(r.folds, deltas, diffs, window, n, 0, from),
    ensures
        ({
            let d = deltas[n - 1];
            let h = diffs[n - 1]->Ok_0;
            let homes = inference::homes(d.blame->Ok_0, h, window);
            let s = spread(
                r,
                d.path->0,
                vstd::utf8::decode_utf8(d.old),
                h,
                homes,
                d.mode,
                m,
            );
            accounts_for(s.folds, deltas, diffs, window, n, m, to)
        }),
    decreases m,
{
    if m == 0 {
        from
    } else {
        let d = deltas[n - 1];
        let h = diffs[n - 1]->Ok_0;
        let b = d.blame->Ok_0;
        let homes = inference::homes(b, h, window);
        let text = vstd::utf8::decode_utf8(d.old);
        let prev = lemma_accounts_spread(r, deltas, diffs, window, n, m - 1, from);
        let before = spread(r, d.path->0, text, h, homes, d.mode, m - 1);
        let s = spread(r, d.path->0, text, h, homes, d.mode, m);
        lemma_homes(b, h[m - 1], window);
        let here = (n - 1, m - 1);
        if homes[m - 1] is Some {
            let to = prev.push(here);
            let f = s.folds.last();
            assert(carries(f, deltas, diffs, window, n - 1, m - 1)) by {
                let one = only(h.len(), m - 1);
                assert forall|selected: Seq<bool>|
                    selected.len() == h.len() && (forall|j: int|
                        0 <= j < h.len() ==> #[trigger] selected[j] == (j == m
                            - 1)) implies f.text == #[trigger] patch::applied(
                    patch::lines_of(text),
                    h,
                    selected,
                    0,
                    0,
                ) by {
                    assert(selected =~= one);
                }
            }
            assert forall|x: int| 0 <= x < s.folds.len() implies {
                &&& 0 <= (#[trigger] to[x]).0 < n
                &&& earlier(to[x], (n - 1, m))
                &&& carries(s.folds[x], deltas, diffs, window, to[x].0, to[x].1)
            } by {
                if x < prev.len() {
                    assert(to[x] == prev[x]);
                    assert(s.folds[x] == before.folds[x]);
                }
            }
            assert forall|x: int, y: int| 0 <= x < y < to.len() implies earlier(
                #[trigger] to[x],
                #[trigger] to[y],
            ) by {
                assert(to[x] == prev[x]);
                if y < prev.len() {
                    assert(to[y] == prev[y]);
                }
            }
            assert forall|q: int, g: int|
                0 <= q < n && earlier((q, g), (n - 1, m)) && #[trigger] has_a_home(
                    deltas,
                    diffs,
                    window,
                    q,
                    g,
                ) implies to.contains((q, g)) by {
                if (q, g) == here {
                    assert(to[prev.len() as int] == here);
                } else {
                    let x = prev.index_of((q, g));
                    assert(prev.contains((q, g)));
                    assert(to[x] == (q, g));
                }
            }
            to
        } else {
            assert forall|q: int, g: int|
                0 <= q < n && earlier((q, g), (n - 1, m)) && #[trigger] has_a_home(
                    deltas,
                    diffs,
                    window,
                    q,
                    g,
                ) implies prev.contains((q, g)) by {
                assert((q, g) != here);
            }
            assert forall|x: int| 0 <= x < s.folds.len() implies {
                &&& 0 <= (#[trigger] prev[x]).0 < n
                &&& earlier(prev[x], (n - 1, m))
                &&& carries(s.folds[x], deltas, diffs, window, prev[x].0, prev[x].1)
            } by {
                assert(s.folds[x] == before.folds[x]);
            }
            prev
        }
    }
}

/// Where the hunks of a change go. Each fold carries one hunk: the path and the mode of
/// its file, the old text with this hunk applied and no other, to the newest commit of
/// the window that owns one of its lines. The folds come in the order of the change, no
/// hunk is folded twice, and every hunk that has a home is folded.
pub proof fn every_hunk_with_a_home_is_folded_there(
    deltas: Seq<DeltaV>,
    diffs: Seq<Result<Seq<HunkV>, Seq<char>>>,
    window: Seq<Oid>,
    n: int,
) -> (from: Seq<(int, int)>)
    requires
        0 <= n,
    ensures
        routed(deltas, diffs, window, n) matches Ok(r) ==> accounts_for(
            r.folds,
            deltas,
            diffs,
            window,
            n + 1,
            0,
            from,
        ) && forall|x: int| 0 <= x < from.len() ==> 0 <= (#[trigger] from[x]).0 < n,
    decreases n,
{
    if n == 0 {
        let none = Seq::<(int, int)>::empty();
        assert forall|q: int, h: int|
            0 <= q < 1 && earlier((q, h), (0, 0)) && #[trigger] has_a_home(
                deltas,
                diffs,
                window,
                q,
                h,
            ) implies none.contains((q, h)) by {}
        none
    } else {
        let d = deltas[n - 1];
        let prev = every_hunk_with_a_home_is_folded_there(deltas, diffs, window, n - 1);
        let r = routed(deltas, diffs, window, n);
        let mut from = prev;
        if r is Ok {
            if textual(d) && diffs[n - 1] is Ok && d.blame is Ok {
                let h = diffs[n - 1]->Ok_0;
                let before = routed(deltas, diffs, window, n - 1)->Ok_0;
                from = lemma_accounts_spread(
                    before,
                    deltas,
                    diffs,
                    window,
                    n,
                    h.len() as int,
                    prev,
                );
            }
            let folds = r->Ok_0.folds;
            assert forall|x: int| 0 <= x < folds.len() implies {
                &&& 0 <= (#[trigger] from[x]).0 < n
                &&& earlier(from[x], (n, 0))
                &&& carries(folds[x], deltas, diffs, window, from[x].0, from[x].1)
            } by {}
            assert forall|q: int, g: int|
                0 <= q < n + 1 && earlier((q, g), (n, 0)) && #[trigger] has_a_home(
                    deltas,
                    diffs,
                    window,
                    q,
                    g,
                ) implies from.contains((q, g)) by {
                if q < n - 1 {
                    assert(prev.contains((q, g)) || from.contains((q, g)));
                } else if q == n {
                    assert(g < 0);
                }
            }
        }
        from
    }
}

// ── the replay of a routing ─────────────────────────────────────────────────

/// The oldest commit of the stack that any fold goes to.
pub open spec fn oldest_target(ids: Seq<Oid>, folds: Seq<FoldV>, i: int) -> Option<int>
    decreases ids.len() - i,
{
    if i < 0 || i >= ids.len() {
        None
    } else if exists|j: int| 0 <= j < folds.len() && (#[trigger] folds[j]).target == ids[i] {
        Some(i)
    } else {
        oldest_target(ids, folds, i + 1)
    }
}

/// Every fold goes to a commit of the window.
pub open spec fn lands_in(folds: Seq<FoldV>, window: Seq<Oid>) -> bool {
    forall|i: int| 0 <= i < folds.len() ==> window.contains((#[trigger] folds[i]).target)
}

proof fn lemma_spread_lands(
    r: RoutingV,
    path: Seq<char>,
    old: Seq<char>,
    hunks: Seq<HunkV>,
    blame: Seq<Option<Oid>>,
    window: Seq<Oid>,
    mode: i32,
    n: int,
)
    requires
        lands_in(r.folds, window),
        n <= hunks.len(),
    ensures
        lands_in(
            spread(r, path, old, hunks, inference::homes(blame, hunks, window), mode, n).folds,
            window,
        ),
    decreases n,
{
    if n > 0 {
        lemma_spread_lands(r, path, old, hunks, blame, window, mode, n - 1);
        inference::the_target_is_the_newest_owner(blame, patch::blamed(hunks[n - 1]), window);
    }
}

/// Every hunk that is routed goes to a commit of the window.
pub proof fn every_fold_goes_into_the_window(
    deltas: Seq<DeltaV>,
    diffs: Seq<Result<Seq<HunkV>, Seq<char>>>,
    window: Seq<Oid>,
    n: int,
)
    ensures
        routed(deltas, diffs, window, n) matches Ok(r) ==> lands_in(r.folds, window),
    decreases n,
{
    if n > 0 {
        every_fold_goes_into_the_window(deltas, diffs, window, n - 1);
        let d = deltas[n - 1];
        if let (Ok(r), Ok(h), Ok(b)) = (
            routed(deltas, diffs, window, n - 1),
            diffs[n - 1],
            d.blame,
        ) {
            lemma_spread_lands(
                r,
                d.path->0,
                vstd::utf8::decode_utf8(d.old),
                h,
                b,
                window,
                d.mode,
                h.len() as int,
            );
        }
    }
}

pub proof fn lemma_oldest(ids: Seq<Oid>, folds: Seq<FoldV>, i: int)
    requires
        0 <= i,
    ensures
        match oldest_target(ids, folds, i) {
            Some(t) => {
                &&& i <= t < ids.len()
                &&& exists|j: int| 0 <= j < folds.len() && (#[trigger] folds[j]).target == ids[t]
                &&& forall|n: int, j: int|
                    i <= n < t && 0 <= j < folds.len() ==> (#[trigger] folds[j]).target
                        != #[trigger] ids[n]
            },
            None => forall|n: int, j: int|
                i <= n < ids.len() && 0 <= j < folds.len() ==> (#[trigger] folds[j]).target
                    != #[trigger] ids[n],
        },
    decreases ids.len() - i,
{
    if i < ids.len() && !(exists|j: int|
        0 <= j < folds.len() && (#[trigger] folds[j]).target == ids[i]) {
        lemma_oldest(ids, folds, i + 1);
    }
}

/// There is a place to replay a routing from exactly if something is folded: it is the
/// oldest commit of the stack that any fold goes to.
pub proof fn what_is_folded_is_replayed(
    deltas: Seq<DeltaV>,
    diffs: Seq<Result<Seq<HunkV>, Seq<char>>>,
    window: Seq<Oid>,
    n: int,
)
    ensures
        routed(deltas, diffs, window, n) matches Ok(r) ==> {
            &&& oldest_target(window, r.folds, 0) is Some <==> r.folds.len() > 0
            &&& oldest_target(window, r.folds, 0) matches Some(t) ==> {
                &&& 0 <= t < window.len()
                &&& exists|j: int|
                    0 <= j < r.folds.len() && (#[trigger] r.folds[j]).target == window[t]
                &&& forall|m: int, j: int|
                    0 <= m < t && 0 <= j < r.folds.len() ==> (#[trigger] r.folds[j]).target
                        != #[trigger] window[m]
            }
        },
{
    every_fold_goes_into_the_window(deltas, diffs, window, n);
    if let Ok(r) = routed(deltas, diffs, window, n) {
        lemma_oldest(window, r.folds, 0);
        if r.folds.len() > 0 {
            assert(window.contains(r.folds[0].target));
            let m = choose|m: int| 0 <= m < window.len() && window[m] == r.folds[0].target;
            assert(r.folds[0].target == window[m]);
        }
    }
}

fn targeted(folds: &Vec<Fold>, c: Oid) -> (b: bool)
    ensures
        b == exists|j: int|
            0 <= j < folds@.len() && (#[trigger] folds_view(folds@)[j]).target == c,
{
    let mut j: usize = 0;
    while j < folds.len()
        invariant
            0 <= j <= folds@.len(),
            forall|n: int| 0 <= n < j ==> (#[trigger] folds_view(folds@)[n]).target != c,
        decreases folds@.len() - j,
    {
        assert(folds_view(folds@)[j as int] == folds@[j as int]@);
        if folds[j].target == c {
            return true;
        }
        j += 1;
    }
    false
}

/// Where to replay from: below the oldest commit that any fold goes to. There is no
/// such place where nothing goes anywhere.
pub fn replay_base(s: &Stack, folds: &Vec<Fold>) -> (r: Option<Option<Oid>>)
    ensures
        match oldest_target(s@.ids(), folds_view(folds@), 0) {
            Some(i) => r == Some(recipe::first_parent(s@.rows[i].1.parents)),
            None => r is None,
        },
{
    let ghost ids = s@.ids();
    let mut i: usize = 0;
    while i < s.rows.len()
        invariant
            ids == s@.ids(),
            0 <= i <= s.rows@.len(),
            oldest_target(ids, folds_view(folds@), i as int) == oldest_target(
                ids,
                folds_view(folds@),
                0,
            ),
        decreases s.rows@.len() - i,
    {
        assert(ids[i as int] == s.rows@[i as int].0);
        assert(s@.rows[i as int].1 == s.rows@[i as int].1@);
        if targeted(folds, s.rows[i].0) {
            return Some(
                if s.rows[i].1.parents.len() == 0 {
                    None
                } else {
                    Some(s.rows[i].1.parents[0])
                },
            );
        }
        i += 1;
    }
    None
}

// ── making the recipe ───────────────────────────────────────────────────────

/// `recipe` with a change that is carried by `synth`.
pub open spec fn with_fold(recipe: RecipeV, f: FoldV, synth: Oid) -> RecipeV {
    let r = recipe.add(f.target, EditV::ApplyChange(synth));
    match f.revert {
        Some(src) => r.add(src, EditV::RevertChange(synth)),
        None => r,
    }
}

/// `recipe` with the changes of `folds[i..]`, each carried by a synthetic commit on
/// top of `source`.
pub open spec fn folded_in(
    k: Known,
    source: Oid,
    folds: Seq<FoldV>,
    i: int,
    recipe: RecipeV,
) -> AskV<RecipeV>
    decreases folds.len() - i,
{
    if i < 0 || i >= folds.len() {
        AskV::Have(recipe)
    } else {
        let f = folds[i];
        match patch::synthetic_in(k, source, f.path, f.text, f.mode) {
            AskV::Need(q) => AskV::Need(q),
            AskV::Fail(e) => AskV::Fail(e),
            AskV::Have(synth) => folded_in(k, source, folds, i + 1, with_fold(recipe, f, synth)),
        }
    }
}

/// The making of a recipe in progress.
#[derive(Debug)]
pub struct Folding {
    source: Oid,
    folds: Vec<Fold>,
    at: usize,
    recipe: Recipe,
    seen: Seen,
}

impl Folding {
    pub closed spec fn source(&self) -> Oid {
        self.source
    }

    pub closed spec fn folds(&self) -> Seq<FoldV> {
        folds_view(self.folds@)
    }

    pub closed spec fn wf(&self) -> bool {
        self.at <= self.folds@.len()
    }

    /// The answers of the object store that it still works from.
    pub closed spec fn heard(&self) -> Known {
        self.seen@
    }

    /// How many of the changes it is through with.
    pub closed spec fn came(&self) -> nat {
        self.at as nat
    }

    /// Where it comes out, if `k` is what the object store answers.
    pub closed spec fn outcome(&self, k: Known) -> AskV<RecipeV> {
        folded_in(k, self.source, self.folds(), self.at as int, self.recipe@)
    }

    /// Carry each change by a synthetic commit on top of `source`, and apply it at
    /// its target.
    pub fn new(source: Oid, folds: Vec<Fold>) -> (f: Folding)
        ensures
            f.wf(),
            f.source() == source,
            f.folds() == folds_view(folds@),
            f.came() == 0,
            f.heard() == Map::<QueryV, crate::store::AnswerV>::empty(),
            forall|k: Known| #[trigger]
                f.outcome(k) == folded_in(k, source, folds_view(folds@), 0, RecipeV::empty()),
    {
        Folding { source, folds, at: 0, recipe: Recipe::new(), seen: Seen::new() }
    }

    /// Hear an answer.
    pub fn answer(&mut self, q: Query, a: Answer)
        requires
            old(self).wf(),
        ensures
            final(self).wf(),
            final(self).source() == old(self).source(),
            final(self).folds() == old(self).folds(),
            final(self).came() == old(self).came(),
            final(self).heard() == old(self).heard().insert(q@, a@),
            forall|k: Known| #[trigger] final(self).outcome(k) == old(self).outcome(k),
    {
        self.seen.learn(q, a);
    }

    /// Work on as far as the answers go, and say how it stands. It asks for nothing
    /// that it was told, and forgets an answer only once it has come further by it.
    pub fn next(&mut self) -> (r: Ask<Recipe>)
        requires
            old(self).wf(),
        ensures
            final(self).wf(),
            final(self).source() == old(self).source(),
            final(self).folds() == old(self).folds(),
            final(self).came() <= final(self).folds().len(),
            final(self).came() > old(self).came() || (final(self).came() == old(self).came()
                && final(self).heard() == old(self).heard()),
            r matches Ask::Need(q) ==> !final(self).heard().contains_key(q@) && forall|k: Known|
                final(self).heard().submap_of(k) && !k.contains_key(q@) ==> #[trigger]
                final(self).outcome(k) == r@,
            r is Need ==> forall|k: Known|
                old(self).heard().submap_of(k) ==> final(self).heard().submap_of(k) && #[trigger]
                final(self).outcome(k) == old(self).outcome(k),
            !(r is Need) ==> forall|k: Known|
                old(self).heard().submap_of(k) ==> #[trigger] old(self).outcome(k) == r@,
    {
        while self.at < self.folds.len()
            invariant
                self.wf(),
                self.source == old(self).source,
                self.folds == old(self).folds,
                self.came() > old(self).came() || (self.came() == old(self).came() && self.heard()
                    == old(self).heard()),
                forall|k: Known|
                    #![trigger self.outcome(k)]
                    #![trigger old(self).outcome(k)]
                    old(self).heard().submap_of(k) ==> self.heard().submap_of(k) && self.outcome(k)
                        == old(self).outcome(k),
            decreases self.folds@.len() - self.at,
        {
            let f = &self.folds[self.at];
            let ghost fv = self.folds()[self.at as int];
            assert(fv == f@);
            proof {
                assert forall|k: Known| self.seen@.submap_of(k) implies engine::steady(
                    k,
                    patch::synthetic_in(self.seen@, self.source, fv.path, fv.text, fv.mode),
                    #[trigger] patch::synthetic_in(k, self.source, fv.path, fv.text, fv.mode),
                ) by {
                    patch::lemma_synthetic(
                        self.seen@,
                        k,
                        self.source,
                        fv.path,
                        fv.text,
                        fv.mode,
                    );
                }
                patch::lemma_synthetic(
                    self.seen@,
                    self.seen@,
                    self.source,
                    fv.path,
                    fv.text,
                    fv.mode,
                );
            }
            let (target, revert) = (f.target, f.revert);
            match patch::synthetic(&self.seen, self.source, &f.path, &f.text, f.mode) {
                Ask::Need(q) => return Ask::Need(q),
                Ask::Fail(e) => return Ask::Fail(e),
                Ask::Have(synth) => {
                    self.recipe.add(target, Edit::ApplyChange(synth));
                    if let Some(src) = revert {
                        self.recipe.add(src, Edit::RevertChange(synth));
                    }
                    self.at = self.at + 1;
                    self.seen = Seen::new();
                },
            }
        }
        let mut recipe = Recipe::new();
        std::mem::swap(&mut recipe, &mut self.recipe);
        Ask::Have(recipe)
    }
}

// ── the result ──────────────────────────────────────────────────────────────

/// Result of an absorb: the outcome (none if nothing had a home), how many hunks
/// were folded, and how many were left (no home).
#[derive(Debug)]
pub struct Absorbed {
    pub outcome: Option<Outcome>,
    pub folded: usize,
    pub orphans: usize,
    /// Where each folded hunk went: path, `@@` header, target commit.
    pub routes: Vec<(String, String, Oid)>,
}

/// Where each folded hunk goes: path, header, target.
pub open spec fn routes_of(folds: Seq<FoldV>) -> Seq<(Seq<char>, Seq<char>, Oid)> {
    folds.map_values(|f: FoldV| (f.path, f.header, f.target))
}

/// Routes by their contents.
pub open spec fn routes_view(v: Seq<(String, String, Oid)>) -> Seq<(Seq<char>, Seq<char>, Oid)> {
    v.map_values(|r: (String, String, Oid)| (r.0@, r.1@, r.2))
}

/// See [`routes_of`].
fn routes(folds: &Vec<Fold>) -> (v: Vec<(String, String, Oid)>)
    ensures
        routes_view(v@) == routes_of(folds_view(folds@)),
{
    let ghost all = routes_of(folds_view(folds@));
    let mut v: Vec<(String, String, Oid)> = Vec::new();
    let mut i: usize = 0;
    while i < folds.len()
        invariant
            all == routes_of(folds_view(folds@)),
            0 <= i <= folds@.len(),
            routes_view(v@) == all.take(i as int),
        decreases folds@.len() - i,
    {
        let ghost before = routes_view(v@);
        let f = &folds[i];
        v.push((f.path.clone(), f.header.clone(), f.target));
        i += 1;
        assert(routes_view(v@) =~= before.push(all[i - 1]));
        assert(all.take(i as int) =~= all.take(i - 1).push(all[i - 1]));
    }
    assert(all.take(i as int) =~= all);
    v
}

impl Routing {
    /// What the absorb amounts to, before it is carried out.
    pub fn absorbed(&self) -> (a: Absorbed)
        ensures
            a.outcome is None,
            a.folded == self@.folds.len(),
            a.orphans == self@.orphans.len(),
            routes_view(a.routes@) == routes_of(self@.folds),
    {
        Absorbed {
            outcome: None,
            folded: self.folds.len(),
            orphans: self.orphans.len(),
            routes: routes(&self.folds),
        }
    }
}

// ── a better target ─────────────────────────────────────────────────────────

/// The newest commit of the window that is the home of a hunk.
pub open spec fn newest_home(homes: Seq<Option<Oid>>, window: Seq<Oid>) -> Option<Oid>
    decreases window.len(),
{
    if window.len() == 0 {
        None
    } else if homes.contains(Some(window.last())) {
        Some(window.last())
    } else {
        newest_home(homes, window.drop_last())
    }
}

/// The newest home, unless it is the one that was asked for.
pub open spec fn better_than(
    requested: Oid,
    homes: Seq<Option<Oid>>,
    window: Seq<Oid>,
) -> Option<Oid> {
    match newest_home(homes, window) {
        Some(t) => if t == requested {
            None
        } else {
            Some(t)
        },
        None => None,
    }
}

/// See [`better_than`].
pub fn better_target(requested: Oid, homes: &Vec<Option<Oid>>, window: &Vec<Oid>) -> (r: Option<
    Oid,
>)
    ensures
        r == better_than(requested, homes@, window@),
{
    let mut i: usize = window.len();
    assert(window@.take(i as int) =~= window@);
    while i > 0
        invariant
            0 <= i <= window@.len(),
            newest_home(homes@, window@.take(i as int)) == newest_home(homes@, window@),
        decreases i,
    {
        i -= 1;
        let c = window[i];
        assert(window@.take(i + 1).drop_last() =~= window@.take(i as int));
        let mut j: usize = 0;
        while j < homes.len()
            invariant
                0 <= j <= homes@.len(),
                forall|n: int| 0 <= n < j ==> homes@[n] != Some(c),
                i < window@.len(),
                c == window@[i as int],
                window@.take(i + 1).last() == c,
                window@.take(i + 1).len() > 0,
                newest_home(homes@, window@.take(i + 1)) == newest_home(homes@, window@),
            decreases homes@.len() - j,
        {
            if store::same_oid(homes[j], Some(c)) {
                assert(homes@.contains(Some(c)));
                return if c == requested {
                    None
                } else {
                    Some(c)
                };
            }
            j += 1;
        }
    }
    None
}

/// The homes of all hunks of the first `n` deltas, where the diffs and blame can tell.
pub open spec fn all_homes(
    deltas: Seq<DeltaV>,
    diffs: Seq<Result<Seq<HunkV>, Seq<char>>>,
    window: Seq<Oid>,
    n: int,
) -> Option<Seq<Option<Oid>>>
    decreases n,
{
    if n <= 0 {
        Some(Seq::empty())
    } else {
        let d = deltas[n - 1];
        match all_homes(deltas, diffs, window, n - 1) {
            None => None,
            Some(h) => if !textual(d) {
                Some(h)
            } else {
                match (diffs[n - 1], d.blame) {
                    (Ok(hunks), Ok(b)) => Some(h + inference::homes(b, hunks, window)),
                    _ => None,
                }
            },
        }
    }
}

/// The newest commit that owns any line of the change (other than `requested`): a
/// better target after a conflict. None where blame or a diff fails.
pub open spec fn suggested(
    deltas: Seq<DeltaV>,
    diffs: Seq<Result<Seq<HunkV>, Seq<char>>>,
    window: Seq<Oid>,
    requested: Oid,
) -> Option<Oid> {
    match all_homes(deltas, diffs, window, deltas.len() as int) {
        Some(h) => better_than(requested, h, window),
        None => None,
    }
}

proof fn lemma_homes_stop(
    deltas: Seq<DeltaV>,
    diffs: Seq<Result<Seq<HunkV>, Seq<char>>>,
    window: Seq<Oid>,
    i: int,
    n: int,
)
    requires
        0 <= i <= n,
        all_homes(deltas, diffs, window, i) is None,
    ensures
        all_homes(deltas, diffs, window, n) is None,
    decreases n - i,
{
    if i < n {
        lemma_homes_stop(deltas, diffs, window, i + 1, n);
    }
}

/// See [`suggested`].
pub fn suggest_among(
    deltas: &Vec<Delta>,
    diffs: &Vec<Result<Vec<Hunk>, String>>,
    window: &Vec<Oid>,
    requested: Oid,
) -> (r: Option<Oid>)
    requires
        diffs@.len() == deltas@.len(),
    ensures
        r == suggested(deltas_view(deltas@), diffs_view(diffs@), window@, requested),
{
    let ghost ds = deltas_view(deltas@);
    let ghost fs = diffs_view(diffs@);
    let mut homes: Vec<Option<Oid>> = Vec::new();
    let mut i: usize = 0;
    while i < deltas.len()
        invariant
            ds == deltas_view(deltas@),
            fs == diffs_view(diffs@),
            diffs@.len() == deltas@.len(),
            0 <= i <= deltas@.len(),
            all_homes(ds, fs, window@, i as int) == Some(homes@),
        decreases deltas@.len() - i,
    {
        let d = &deltas[i];
        assert(ds[i as int] == d@);
        assert(fs[i as int] == patch::diff_view(diffs@[i as int]));
        if is_textual(d) {
            match (&diffs[i], &d.blame) {
                (Ok(hunks), Ok(blame)) => {
                    let mut more = inference::infer_targets(blame, hunks, window);
                    homes.append(&mut more);
                },
                _ => {
                    proof {
                        lemma_homes_stop(ds, fs, window@, i + 1, deltas@.len() as int);
                    }
                    return None;
                },
            }
        }
        i += 1;
    }
    better_target(requested, &homes, window)
}

/// See [`suggested`]; the diffs are those of the deltas.
pub fn suggest_target(deltas: &Vec<Delta>, window: &Vec<Oid>, requested: Oid) -> (r: Option<Oid>)
    ensures
        r == suggested(
            deltas_view(deltas@),
            diffs_of(deltas_view(deltas@)),
            window@,
            requested,
        ),
{
    let diffs = diffs(deltas);
    suggest_among(deltas, &diffs, window, requested)
}

/// The error with a better target named, where it is a conflict.
pub fn with_suggestion(e: Error, suggested: Option<Oid>) -> (r: Error)
    ensures
        r@ == match e@ {
            ErrorV::Conflict { commit, path, .. } => ErrorV::Conflict { commit, path, suggested },
            other => other,
        },
{
    match e {
        Error::Conflict { commit, path, .. } => Error::Conflict { commit, path, suggested },
        other => other,
    }
}

/// Why a fold came to nothing: where the replay failed, with a better target named.
pub fn explained(f: Failure, suggested: Option<Oid>) -> (r: Error)
    ensures
        r@ == match (f.replaying, f.error@) {
            (true, ErrorV::Conflict { commit, path, .. }) => ErrorV::Conflict {
                commit,
                path,
                suggested,
            },
            (_, other) => other,
        },
{
    if f.replaying {
        with_suggestion(f.error, suggested)
    } else {
        f.error
    }
}

} // verus!
