//! What holds of every absorb.

use crate::absorb;
use crate::absorb::DeltaV;
use crate::engine::{RecipeV, ReplayV};
use crate::git::StackV;
use crate::oid::Oid;
use crate::ops;
use crate::ops::{EventV, Opts, RefV};
use crate::recipe;
use crate::recipe::PlanV;
use crate::rewrite;
use crate::rewrite::{OutcomeV, RewriteV, StageV};
use crate::rewrite_laws;
use crate::store::{AskV, Known};
use crate::ErrorV;
use vstd::prelude::*;

verus! {

/// What an absorb is about: the branch and its tip, the change, the stack it may go
/// to, and whether nothing is changed on disk.
#[verifier::ext_equal]
pub struct AbsorbV {
    pub branch: Seq<char>,
    pub head: Oid,
    pub deltas: Seq<DeltaV>,
    pub stack: StackV,
    pub clean: bool,
}

/// What an absorb reports.
#[verifier::ext_equal]
pub struct AbsorbedV {
    pub outcome: Option<OutcomeV>,
    pub folded: nat,
    pub orphans: nat,
    pub routes: Seq<(Seq<char>, Seq<char>, Oid)>,
}

impl AbsorbV {
    /// Where the change goes.
    pub open spec fn routed(self) -> Result<absorb::RoutingV, ErrorV> {
        absorb::routed(
            self.deltas,
            absorb::diffs_of(self.deltas),
            self.stack.ids(),
            self.deltas.len() as int,
        )
    }

    /// The rewrite that carries the routing `x` out from below the commit at `i`.
    pub open spec fn rewrite(
        self,
        x: absorb::RoutingV,
        i: int,
        recipe: RecipeV,
        opts: Opts,
    ) -> RewriteV {
        ops::asked(
            self.branch,
            PlanV {
                recipe,
                base: recipe::first_parent(self.stack.rows[i].1.parents),
                tip: self.head,
            },
            true,
            "transplant: absorb staged change"@,
            x.orphans.len() == 0 && self.clean,
            opts,
        )
    }

    /// `r` is what the absorb reports, if `k` is what the object store answers, the
    /// refs are `refs`, `base` tells where each of them forked off, and every ref can
    /// be moved that it wants to move.
    pub open spec fn reports(
        self,
        k: Known,
        refs: Seq<RefV>,
        base: spec_fn(RefV) -> Option<Oid>,
        opts: Opts,
        r: AbsorbedV,
    ) -> bool {
        &&& self.routed() matches Ok(x)
        &&& r.folded == x.folds.len()
        &&& r.orphans == x.orphans.len()
        &&& r.routes == absorb::routes_of(x.folds)
        &&& match absorb::oldest_target(self.stack.ids(), x.folds, 0) {
            None => r.outcome is None,
            Some(i) => match absorb::folded_in(k, self.head, x.folds, 0, RecipeV::empty()) {
                AskV::Have(recipe) => {
                    let o = self.rewrite(x, i, recipe, opts);
                    exists|ids: Seq<Oid>, replay: ReplayV| #[trigger]
                        o.yields(k, ids, replay) && r.outcome == Some(
                            rewrite_laws::dealt(
                                rewrite::tail_of(ids, replay, ops::others(refs, self.branch)),
                                o,
                                0,
                                base,
                            ).outcome(o),
                        )
                },
                _ => false,
            },
        }
    }
}

proof fn lemma_reports_same(
    a: AbsorbV,
    k: Known,
    refs: Seq<RefV>,
    base: spec_fn(RefV) -> Option<Oid>,
    opts: Opts,
    from: Opts,
    to: Opts,
    r: AbsorbedV,
)
    requires
        !opts.dry_run,
        from == opts || from == (Opts { dry_run: true, ..opts }),
        to == opts || to == (Opts { dry_run: true, ..opts }),
        a.reports(k, refs, base, from, r),
    ensures
        a.reports(k, refs, base, to, r),
{
    let x = a.routed()->Ok_0;
    if let Some(i) = absorb::oldest_target(a.stack.ids(), x.folds, 0) {
        let recipe = absorb::folded_in(k, a.head, x.folds, 0, RecipeV::empty())->Have_0;
        let o = a.rewrite(x, i, recipe, from);
        let p = a.rewrite(x, i, recipe, to);
        let run = a.rewrite(x, i, recipe, opts);
        let dry = a.rewrite(x, i, recipe, Opts { dry_run: true, ..opts });
        let (ids, replay) = choose|ids: Seq<Oid>, replay: ReplayV| #[trigger]
            o.yields(k, ids, replay) && r.outcome == Some(
                rewrite_laws::dealt(
                    rewrite::tail_of(ids, replay, ops::others(refs, a.branch)),
                    o,
                    0,
                    base,
                ).outcome(o),
            );
        assert(dry == (RewriteV { dry_run: true, ..run }));
        let t = rewrite::tail_of(ids, replay, ops::others(refs, a.branch));
        rewrite_laws::a_dry_run_reports_the_real_run(t, run, dry, base);
        assert(o.job(ids) == p.job(ids));
        assert(p.yields(k, ids, replay));
    }
}

/// An absorb reports one thing.
pub proof fn an_absorb_reports_one_thing(
    a: AbsorbV,
    k: Known,
    refs: Seq<RefV>,
    base: spec_fn(RefV) -> Option<Oid>,
    opts: Opts,
    r: AbsorbedV,
    s: AbsorbedV,
)
    requires
        a.reports(k, refs, base, opts, r),
        a.reports(k, refs, base, opts, s),
    ensures
        r == s,
{
    let x = a.routed()->Ok_0;
    if let Some(i) = absorb::oldest_target(a.stack.ids(), x.folds, 0) {
        let recipe = absorb::folded_in(k, a.head, x.folds, 0, RecipeV::empty())->Have_0;
        let o = a.rewrite(x, i, recipe, opts);
        let (ids, one) = choose|ids: Seq<Oid>, one: ReplayV| #[trigger]
            o.yields(k, ids, one) && r.outcome == Some(
                rewrite_laws::dealt(
                    rewrite::tail_of(ids, one, ops::others(refs, a.branch)),
                    o,
                    0,
                    base,
                ).outcome(o),
            );
        let (jds, two) = choose|jds: Seq<Oid>, two: ReplayV| #[trigger]
            o.yields(k, jds, two) && s.outcome == Some(
                rewrite_laws::dealt(
                    rewrite::tail_of(jds, two, ops::others(refs, a.branch)),
                    o,
                    0,
                    base,
                ).outcome(o),
            );
        rewrite_laws::a_rewrite_yields_one_replay(k, o, ids, one, jds, two);
    }
}

/// A dry run of an absorb is the run without the ref moves. It reports what the run
/// reports, and nothing else: as many hunks folded and left over, the same routes, and
/// the same outcome or none.
pub proof fn a_dry_absorb_reports_the_real_one(
    a: AbsorbV,
    k: Known,
    refs: Seq<RefV>,
    base: spec_fn(RefV) -> Option<Oid>,
    opts: Opts,
    r: AbsorbedV,
    s: AbsorbedV,
)
    requires
        !opts.dry_run,
    ensures
        a.reports(k, refs, base, Opts { dry_run: true, ..opts }, r) <==> a.reports(
            k,
            refs,
            base,
            opts,
            r,
        ),
        a.reports(k, refs, base, Opts { dry_run: true, ..opts }, r) && a.reports(
            k,
            refs,
            base,
            opts,
            s,
        ) ==> r == s,
{
    let dry = Opts { dry_run: true, ..opts };
    if a.reports(k, refs, base, dry, r) {
        lemma_reports_same(a, k, refs, base, opts, dry, opts, r);
    }
    if a.reports(k, refs, base, opts, r) {
        lemma_reports_same(a, k, refs, base, opts, opts, dry, r);
    }
    if a.reports(k, refs, base, opts, r) && a.reports(k, refs, base, opts, s) {
        an_absorb_reports_one_thing(a, k, refs, base, opts, r, s);
    }
}

/// A dry run of an absorb writes nothing, at any stage that it comes to: no ref moves
/// (and so no reflog grows), and the index and the worktree are left alone.
pub proof fn a_dry_absorb_writes_nothing(
    a: AbsorbV,
    x: absorb::RoutingV,
    i: int,
    recipe: RecipeV,
    opts: Opts,
    s: StageV,
    e: EventV,
)
    requires
        opts.dry_run,
        s is Working || s is Listing || s is Restacking || s is Over,
    ensures
        s.action(a.rewrite(x, i, recipe, opts)) matches Some(act) ==> !act.writes(),
        rewrite::next_stage(a.rewrite(x, i, recipe, opts), s, e) matches Ok(n) ==> n is Working
            || n is Listing || n is Restacking || n is Over,
{
    rewrite_laws::a_dry_run_writes_nothing(a.rewrite(x, i, recipe, opts), s, e);
}

} // verus!
