//! What holds of every rewrite.

use crate::engine;
use crate::git;
use crate::git::StackV;
use crate::oid::Oid;
use crate::ops;
use crate::ops::{ActionV, EventV, FateV, Promoting, RefV};
use crate::rewrite;
use crate::rewrite::{RewriteV, StageV, TailV};
use crate::store::{AskV, Known};
use crate::ErrorV;
use vstd::prelude::*;

verus! {

/// Nothing is written before the replay has succeeded and the refs are listed.
pub proof fn nothing_is_written_before_the_refs_are_listed(o: RewriteV, s: StageV)
    requires
        s is Working || s is Listing,
    ensures
        s.action(o) matches Some(a) ==> !a.writes(),
{
}

/// A listing that cannot be read, or that lacks the branch itself, ends the rewrite
/// with nothing written.
pub proof fn an_incomplete_listing_is_refused(
    o: RewriteV,
    ids: Seq<Oid>,
    replay: engine::ReplayV,
    e: EventV,
)
    requires
        !(e is Refs) || !ops::listed(e->Refs_0, o.branch),
    ensures
        rewrite::next_stage(o, StageV::Listing { ids, replay }, e) is Err,
{
}

/// A dry run never comes to a stage where it writes: it only deals with siblings,
/// and moves none.
pub proof fn a_dry_run_writes_nothing(o: RewriteV, s: StageV, e: EventV)
    requires
        o.dry_run,
        s is Working || s is Listing || s is Restacking || s is Over,
    ensures
        s.action(o) matches Some(a) ==> !a.writes(),
        rewrite::next_stage(o, s, e) matches Ok(n) ==> n is Working || n is Listing
            || n is Restacking || n is Over,
{
}

/// The branch is moved only to the rewritten tip, and only if it still is where the
/// rewrite started. A sibling is moved only to its counterpart, and only if it
/// still is where it was listed.
pub proof fn refs_move_only_from_where_they_were(o: RewriteV, s: StageV)
    ensures
        s.action(o) matches Some(ActionV::MoveRef { name, to, from, .. }) ==> match s {
            StageV::Promoting { tail, at } => name == o.branch && to == tail.replay.tip && from
                == o.tip,
            StageV::Restacking { tail, i } => {
                let r = tail.refs[i];
                name == r.name && from == r.target && engine::image(tail.replay.map, r.target)
                    == Some(to)
            },
            _ => false,
        },
{
}

/// A branch that moved in the meantime is not overwritten, and no sibling is moved
/// either: the rewrite ends.
pub proof fn a_branch_that_moved_is_not_overwritten(
    o: RewriteV,
    tail: TailV,
    now: Option<Oid>,
    why: Seq<char>,
)
    requires
        now != Some(o.tip),
    ensures
        rewrite::next_stage(
            o,
            StageV::Promoting { tail, at: Promoting::Move },
            EventV::Refused { now, why },
        ) == Err::<StageV, ErrorV>(
            ErrorV::Empty(o.promotion(tail.replay).moved_since(now)),
        ),
{
}

/// The worktree is only ever checked out before the branch moves, and only where
/// that was asked for.
pub proof fn a_checkout_comes_before_the_move(o: RewriteV, tail: TailV, e: EventV)
    ensures
        o.promotion(tail.replay).start() == Promoting::Checkout ==> o.sync,
        rewrite::next_stage(
            o,
            StageV::Promoting { tail, at: Promoting::Checkout },
            e,
        ) matches Ok(n) ==> n == (StageV::Promoting { tail, at: Promoting::Move }),
{
}

/// Once the branch has moved, the rewrite does not fail any more.
pub proof fn a_rewrite_past_its_promotion_succeeds(o: RewriteV, s: StageV, e: EventV)
    requires
        s is Indexing || s is Restacking,
    ensures
        rewrite::next_stage(o, s, e) matches Ok(n) && n is Restacking,
{
}

/// A ref into the rewritten range is carried along or warned about, unless its
/// commit stayed what it was. Tags, branches checked out elsewhere, and branches
/// that were asked to stay are never moved.
pub proof fn no_ref_is_stranded_silently(
    r: RefV,
    ids: Seq<Oid>,
    map: Seq<(Oid, Oid)>,
    no_restack: bool,
)
    ensures
        ids.contains(r.target) && engine::image(map, r.target) != Some(r.target) ==> {
            let f = ops::fate_of(r, ids, map, no_restack);
            f is Warn || f is Move
        },
        r.tag || no_restack || r.elsewhere ==> !(ops::fate_of(r, ids, map, no_restack) is Move),
        ops::fate_of(r, ids, map, no_restack) matches FateV::Move(to) ==> engine::image(
            map,
            r.target,
        ) == Some(to),
{
}

/// A rewrite has one range, and its replay one result.
pub proof fn a_rewrite_yields_one_replay(
    k: Known,
    o: RewriteV,
    a: Seq<Oid>,
    r: engine::ReplayV,
    b: Seq<Oid>,
    s: engine::ReplayV,
)
    requires
        o.yields(k, a, r),
        o.yields(k, b, s),
    ensures
        a == b,
        r == s,
{
    let x = choose|x: StackV| #[trigger]
        git::is_linear(k, o.base, o.tip, x) && x.ids() == a && engine::replay_in(k, o.job(a))
            == AskV::Have(r);
    let y = choose|y: StackV| #[trigger]
        git::is_linear(k, o.base, o.tip, y) && y.ids() == b && engine::replay_in(k, o.job(b))
            == AskV::Have(s);
    git::a_linear_run_is_unique(k, o.base, o.tip, x, y);
}

// ── the preview is the run ──────────────────────────────────────────────────

/// The siblings from `i` on dealt with, where every move succeeds and `base` tells
/// where each of them forked off.
pub open spec fn dealt(
    t: TailV,
    o: RewriteV,
    i: int,
    base: spec_fn(RefV) -> Option<Oid>,
) -> TailV
    decreases t.refs.len() - i,
{
    if i < 0 || i >= t.refs.len() {
        t
    } else {
        dealt(
            match t.action(o, i) {
                None => t.pass(o, i),
                Some(ActionV::MergeBase { .. }) => t.after(o, i, EventV::Base(base(t.refs[i]))),
                Some(_) => t.after(o, i, EventV::Done),
            },
            o,
            i + 1,
            base,
        )
    }
}

proof fn lemma_dealt_same(
    t: TailV,
    o: RewriteV,
    dry: RewriteV,
    i: int,
    base: spec_fn(RefV) -> Option<Oid>,
)
    requires
        !o.dry_run,
        dry == (RewriteV { dry_run: true, ..o }),
    ensures
        dealt(t, o, i, base) == dealt(t, dry, i, base),
    decreases t.refs.len() - i,
{
    if 0 <= i < t.refs.len() {
        let next = match t.action(o, i) {
            None => t.pass(o, i),
            Some(ActionV::MergeBase { .. }) => t.after(o, i, EventV::Base(base(t.refs[i]))),
            Some(_) => t.after(o, i, EventV::Done),
        };
        let next2 = match t.action(dry, i) {
            None => t.pass(dry, i),
            Some(ActionV::MergeBase { .. }) => t.after(dry, i, EventV::Base(base(t.refs[i]))),
            Some(_) => t.after(dry, i, EventV::Done),
        };
        assert(next == next2);
        lemma_dealt_same(next, o, dry, i + 1, base);
    }
}

/// Going on past the siblings that need nothing does not change what comes out.
pub proof fn going_on_keeps_the_outcome(
    t: TailV,
    o: RewriteV,
    i: int,
    base: spec_fn(RefV) -> Option<Oid>,
)
    requires
        0 <= i,
    ensures
        ({
            let (u, j) = t.onward(o, i);
            dealt(t, o, i, base) == dealt(u, o, j, base)
        }),
    decreases t.refs.len() - i,
{
    if i < t.refs.len() && t.action(o, i) is None {
        going_on_keeps_the_outcome(t.pass(o, i), o, i + 1, base);
    }
}

/// A dry run reports what the run does: the same tips, the same siblings carried
/// along, the same warnings and the same dropped commits, where the run's own moves
/// succeed.
pub proof fn a_dry_run_reports_the_real_run(
    t: TailV,
    o: RewriteV,
    dry: RewriteV,
    base: spec_fn(RefV) -> Option<Oid>,
)
    requires
        !o.dry_run,
        dry == (RewriteV { dry_run: true, ..o }),
    ensures
        dealt(t, o, 0, base).outcome(o) == dealt(t, dry, 0, base).outcome(dry),
        forall|ids: Seq<Oid>| #[trigger] o.job(ids) == dry.job(ids),
{
    lemma_dealt_same(t, o, dry, 0, base);
}

} // verus!
