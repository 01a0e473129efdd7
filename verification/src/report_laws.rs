//! What holds of everything that is read from the command line and printed there.

use crate::absorb::Absorbed;
use crate::git::FileFavor;
use crate::oid::Oid;
use crate::ops;
use crate::ops::Opts;
use crate::report;
use crate::rewrite::Outcome;
use crate::store;
use crate::store::SidesV;
use crate::text;
use crate::undo;
use crate::undo::UndoEntry;
use crate::ErrorV;
use vstd::prelude::*;

verus! {

/// The flags choose the options: one conflict rule at most, that of the flag given. Ours
/// goes before theirs, and theirs before both together.
pub proof fn the_flags_choose_the_options(
    ignore_whitespace: bool,
    ours: bool,
    theirs: bool,
    union: bool,
    dry_run: bool,
    no_restack: bool,
    o: Opts,
)
    requires
        call_ensures(
            report::opts,
            (ignore_whitespace, ours, theirs, union, dry_run, no_restack),
            o,
        ),
    ensures
        o.ignore_ws == ignore_whitespace,
        o.dry_run == dry_run,
        o.no_restack == no_restack,
        o.favor is None <==> !ours && !theirs && !union,
        o.favor == Some(FileFavor::Ours) <==> ours,
        o.favor == Some(FileFavor::Theirs) <==> theirs && !ours,
        o.favor == Some(FileFavor::Union) <==> union && !theirs && !ours,
{
}

/// The line about a run names the branch by its short name and both tips: the old one
/// first in a dry run, which changes nothing, and otherwise the new one first.
pub proof fn a_report_names_both_tips(o: Outcome, dry: bool, s: String, line: String)
    requires
        call_ensures(report::report, (&o, dry), s),
        call_ensures(report::result_line, (&o, dry), line),
    ensures
        ({
            let b = ops::last_part(o.branch@);
            let (old, new) = (o.old_tip.spec_short(), o.new_tip.spec_short());
            &&& dry ==> s@ == b + " would move "@ + old + " -> "@ + new
                + " (dry run; nothing changed)"@
            &&& !dry ==> s@ == b + " now at "@ + new + " (was "@ + old
                + "; undo: git-transplant undo)"@
            &&& o.old_tip == o.new_tip ==> line@ == "no change"@
            &&& o.old_tip != o.new_tip ==> line@ == s@
        }),
{
}

/// The line about an undo names the tip that the branch is back at first, and the one that
/// it left second.
pub proof fn the_line_of_an_undo(o: Outcome, dry: bool, s: String)
    requires
        call_ensures(report::undo_line, (&o, dry), s),
    ensures
        ({
            let b = ops::last_part(o.branch@);
            let (left, back) = (o.old_tip.spec_short(), o.new_tip.spec_short());
            &&& dry ==> s@ == b + " would go back to "@ + back + " (from "@ + left
                + ") (dry run; nothing changed)"@
            &&& !dry ==> s@ == b + " restored to "@ + back + " (was "@ + left
                + "; redo: git-transplant undo)"@
        }),
{
}

/// Every sibling that was carried along has a line, and so has every commit that was left
/// out, by its own summary; nothing else does.
pub proof fn every_move_and_every_loss_is_printed(
    o: Outcome,
    verb: &str,
    summaries: Vec<String>,
    v: Vec<String>,
)
    requires
        call_ensures(report::report_restacks, (&o, verb, &summaries), v),
        summaries@.len() == o.dropped@.len(),
    ensures
        v@.len() == o.restacked@.len() + o.dropped@.len(),
        forall|i: int|
            0 <= i < o.restacked@.len() ==> (#[trigger] v@[i])@ == verb@ + " "@
                + o.restacked@[i]@,
        forall|i: int|
            0 <= i < o.dropped@.len() ==> v@[o.restacked@.len() + i]@ == "dropped "@ + (
            #[trigger] o.dropped@[i]).spec_short() + " "@ + summaries@[i]@
                + " (became empty; its message is gone)"@,
{
    let t = text::texts(v@);
    let moved = report::restack_lines(o@.restacked, verb@);
    let gone = report::dropped_lines(o@.dropped, text::texts(summaries@));
    assert(t.len() == v@.len());
    assert(moved.len() == o.restacked@.len());
    assert forall|i: int| 0 <= i < o.restacked@.len() implies (#[trigger] v@[i])@ == verb@ + " "@
        + o.restacked@[i]@ by {
        assert(t[i] == v@[i]@);
        assert(t[i] == moved[i]);
        assert(o@.restacked[i] == o.restacked@[i]@);
    }
    assert forall|i: int| 0 <= i < o.dropped@.len() implies v@[o.restacked@.len() + i]@
        == "dropped "@ + (#[trigger] o.dropped@[i]).spec_short() + " "@ + summaries@[i]@
        + " (became empty; its message is gone)"@ by {
        let j = o.restacked@.len() + i;
        assert(t[j] == v@[j]@);
        assert(t[j] == gone[i]);
        assert(text::texts(summaries@)[i] == summaries@[i]@);
    }
}

/// What is said of a sibling's move tells a dry run from a real one.
pub proof fn a_dry_run_only_would_restack(dry: bool, s: &'static str)
    requires
        call_ensures(report::restack_verb, (dry,), s),
    ensures
        dry ==> s@ == "would restack"@,
        !dry ==> s@ == "restacked"@,
{
}

/// Every warning is printed, in order, and marked as one.
pub proof fn every_warning_is_printed(o: Outcome, v: Vec<String>)
    requires
        call_ensures(report::warning_lines, (&o,), v),
    ensures
        v@.len() == o.warnings@.len(),
        forall|i: int|
            0 <= i < v@.len() ==> (#[trigger] v@[i])@ == "warning: "@ + o.warnings@[i]@,
{
    let t = text::texts(v@);
    assert(t.len() == v@.len());
    assert forall|i: int| 0 <= i < v@.len() implies (#[trigger] v@[i])@ == "warning: "@
        + o.warnings@[i]@ by {
        assert(t[i] == v@[i]@);
        assert(o@.warnings[i] == o.warnings@[i]@);
    }
}

/// The history of a branch is a line for each run between a heading with their number and
/// a line that says where an undo would put the branch: back at the old tip of the first.
/// Each line has the old tip, the new one and the message, and a star before it exactly if
/// an undo would reverse that run.
pub proof fn the_history_has_a_line_for_each_run(
    branch: &str,
    entries: Vec<UndoEntry>,
    v: Vec<String>,
)
    requires
        call_ensures(report::list_undo, (branch, &entries), v),
        entries@.len() > 0,
    ensures
        v@.len() == entries@.len() + 2,
        v@[0]@ == ops::last_part(branch@) + ": "@ + text::decimal_of(entries@.len())
            + " git-transplant operation(s), newest first"@,
        forall|i: int|
            0 <= i < entries@.len() ==> {
                let e = #[trigger] entries@[i];
                v@[i + 1]@ == (if e.next {
                    "*"@
                } else {
                    " "@
                }) + " "@ + e.old.spec_short() + " -> "@ + e.new.spec_short() + "  "@ + e.message@
            },
        v@[v@.len() - 1]@ == "(* = what `git-transplant undo` reverses, putting "@
            + ops::last_part(branch@) + " back at "@ + entries@[0].old.spec_short() + ")"@,
{
    let t = text::texts(v@);
    let n = entries@.len() as int;
    assert(t.len() == v@.len());
    assert(t[0] == v@[0]@);
    assert(t[n + 1] == v@[n + 1]@);
    assert forall|i: int| 0 <= i < n implies {
        let e = #[trigger] entries@[i];
        v@[i + 1]@ == (if e.next {
            "*"@
        } else {
            " "@
        }) + " "@ + e.old.spec_short() + " -> "@ + e.new.spec_short() + "  "@ + e.message@
    } by {
        assert(t[i + 1] == v@[i + 1]@);
        assert(t[i + 1] == report::history_line(entries@[i]));
    }
}

/// The list of runs marks the newest, and no other, as what an undo would reverse.
pub proof fn only_the_newest_run_is_next(log: Vec<ops::LogEntry>, v: Vec<UndoEntry>)
    requires
        call_ensures(undo::undo_list, (&log,), v),
    ensures
        v@.len() == undo::own_entries(undo::log_view(log@)).len(),
        forall|i: int|
            0 <= i < v@.len() ==> {
                let e = #[trigger] v@[i];
                let l = undo::own_entries(undo::log_view(log@))[i];
                e.old == l.old && e.new == l.new && e.message@ == l.message && (e.next <==> i == 0)
            },
{
}

/// How many lines of the routing table the first `n` routes take: one each, and one more
/// for each path that is not the one before it.
pub open spec fn rows_before(routes: Seq<(Seq<char>, Seq<char>, Oid)>, n: int) -> int
    decreases n,
{
    if n <= 0 {
        0
    } else {
        rows_before(routes, n - 1) + (if new_path(routes, n - 1) {
            2int
        } else {
            1int
        })
    }
}

/// The route at `i` is the first of its path, or follows one of another path.
pub open spec fn new_path(routes: Seq<(Seq<char>, Seq<char>, Oid)>, i: int) -> bool {
    if i == 0 {
        routes[0].0.len() > 0
    } else {
        routes[i].0 != routes[i - 1].0
    }
}

/// The routing table has a line for each hunk that goes to a commit: its header, the commit
/// and the commit's summary. Above the first of each path stands the path.
pub proof fn the_table_shows_every_route(
    routes: Seq<(Seq<char>, Seq<char>, Oid)>,
    summaries: Seq<Seq<char>>,
    n: int,
    i: int,
)
    requires
        0 <= i < n <= routes.len(),
        summaries.len() == routes.len(),
    ensures
        ({
            let t = report::table(routes, summaries, n);
            let at = rows_before(routes, i + 1) - 1;
            let (path, header, target) = routes[i];
            &&& t.len() == rows_before(routes, n)
            &&& 0 <= at < t.len()
            &&& t[at] == "    "@ + header + " -> "@ + target.spec_short() + " "@ + summaries[i]
            &&& new_path(routes, i) ==> at > 0 && t[at - 1] == path
        }),
    decreases n,
{
    let t = report::table(routes, summaries, n);
    lemma_table_len(routes, summaries, n - 1);
    lemma_table_len(routes, summaries, n);
    if i < n - 1 {
        the_table_shows_every_route(routes, summaries, n - 1, i);
        let u = report::table(routes, summaries, n - 1);
        let at = rows_before(routes, i + 1) - 1;
        assert(t[at] == u[at]);
        if at > 0 {
            assert(t[at - 1] == u[at - 1]);
        }
    } else if n == 1 {
        assert(routes[0].0.len() == 0 <==> routes[0].0 =~= Seq::empty());
    }
}

proof fn lemma_table_len(
    routes: Seq<(Seq<char>, Seq<char>, Oid)>,
    summaries: Seq<Seq<char>>,
    n: int,
)
    requires
        0 <= n <= routes.len(),
    ensures
        report::table(routes, summaries, n).len() == rows_before(routes, n),
        rows_before(routes, n) >= n,
    decreases n,
{
    if n > 0 {
        lemma_table_len(routes, summaries, n - 1);
        if n == 1 {
            assert(routes[0].0.len() == 0 <==> routes[0].0 =~= Seq::empty());
        }
    }
}

/// The line about an absorb counts what went and what stayed. Where nothing had a home it
/// says so; where the run was dry it says what would be.
pub proof fn the_line_of_an_absorb(a: Absorbed, dry: bool, s: String)
    requires
        call_ensures(report::absorb_line, (&a, dry), s),
    ensures
        match a.outcome {
            None => s@ == "nothing absorbed ("@ + text::decimal_of(a.orphans as nat)
                + " hunk(s) had no home in range)"@,
            Some(o) => s@ == (if dry {
                "would absorb"@
            } else {
                "absorbed"@
            }) + " "@ + text::decimal_of(a.folded as nat) + " hunk(s) ("@ + text::decimal_of(
                a.orphans as nat,
            ) + " left staged); "@ + report::report_of(o@, dry),
        },
{
}

/// A conflict is named by the path on our side; where the file is not there, by that on
/// their side, and failing that by the ancestor's.
pub proof fn a_conflict_is_named_by_our_path(s: SidesV)
    ensures
        store::conflict_path(None) is None,
        s.our matches Some(p) ==> store::conflict_path(Some(s)) == Some(text::lossy(p)),
        s.our is None ==> (s.their matches Some(p) ==> store::conflict_path(Some(s)) == Some(
            text::lossy(p),
        )),
        s.our is None && s.their is None ==> (s.ancestor matches Some(p) ==> store::conflict_path(
            Some(s),
        ) == Some(text::lossy(p))),
        s.our is None && s.their is None && s.ancestor is None ==> store::conflict_path(Some(s))
            is None,
{
}

/// The message of a conflict names the commit it came up at and the path, where it is known;
/// where another commit owns the lines, it names that one as the one to try.
#[verifier::rlimit(40)]
#[verifier::spinoff_prover]
pub proof fn a_conflict_names_its_commit_and_path(commit: Oid, path: Seq<char>, other: Oid)
    ensures
        (ErrorV::Conflict { commit, path: None, suggested: None }).message()
            == "conflict while rewriting "@ + commit.spec_short(),
        (ErrorV::Conflict { commit, path: Some(path), suggested: None }).message() == (
        ErrorV::Conflict { commit, path: None, suggested: None }).message() + " in "@ + path,
        (ErrorV::Conflict { commit, path: Some(path), suggested: Some(other) }).message() == (
        ErrorV::Conflict { commit, path: Some(path), suggested: None }).message() + (" — "@
            + other.spec_short() + " owns those lines; try `fix "@ + other.spec_short()
            + "` or `absorb`"@),
{
    let short = commit.spec_short();
    reveal_strlit("");
    let bare = (ErrorV::Conflict { commit, path: None, suggested: None }).message();
    assert(bare =~= "conflict while rewriting "@ + short);
    let at = (ErrorV::Conflict { commit, path: Some(path), suggested: None }).message();
    assert(at =~= bare + " in "@ + path);
    lemma_joined_thrice(
        at,
        " — "@,
        other.spec_short(),
        " owns those lines; try `fix "@,
        "` or `absorb`"@,
    );
}

proof fn lemma_joined_thrice(
    a: Seq<char>,
    b: Seq<char>,
    c: Seq<char>,
    d: Seq<char>,
    e: Seq<char>,
)
    ensures
        a + b + c + d + c + e == a + (b + c + d + c + e),
{
    assert(a + b + c + d + c + e =~= a + (b + c + d + c + e));
}

/// The message of any other error names what it is about: the commit, the path, the reason.
pub proof fn an_error_names_what_it_is_about(commit: Oid, path: Seq<char>, why: Seq<char>)
    ensures
        text::holds((ErrorV::MergeInRange { commit }).message(), commit.spec_short()),
        text::holds((ErrorV::FileModified { path, commit }).message(), commit.spec_short()),
        text::holds((ErrorV::FileModified { path, commit }).message(), path),
        text::holds((ErrorV::PathNotFound { path }).message(), path),
        text::holds(ErrorV::Git(why).message(), why),
        ErrorV::Empty(why).message() == why,
{
    let short = commit.spec_short();
    let tail = "; move is not clean (aborting)"@;
    lemma_in_the_middle("merge commit "@, short, " in range; only linear history is supported"@);
    lemma_in_the_middle(path + " is modified at "@, short, tail);
    lemma_at_the_front(path, " is modified at "@, short, tail);
    lemma_at_the_end("path not found: "@, path);
    lemma_at_the_end("git error: "@, why);
}

proof fn lemma_in_the_middle(a: Seq<char>, b: Seq<char>, c: Seq<char>)
    ensures
        text::holds(a + b + c, b),
{
    a_text_holds_its_parts(a, b, c);
}

proof fn lemma_at_the_front(a: Seq<char>, b: Seq<char>, c: Seq<char>, d: Seq<char>)
    ensures
        text::holds(a + b + c + d, a),
{
    let none = Seq::<char>::empty();
    a_text_holds_its_parts(none, a, b + c + d);
    assert(none + a + (b + c + d) =~= a + b + c + d);
}

proof fn lemma_at_the_end(a: Seq<char>, b: Seq<char>)
    ensures
        text::holds(a + b, b),
{
    let none = Seq::<char>::empty();
    a_text_holds_its_parts(a, b, none);
    assert(a + b + none =~= a + b);
}

// ── texts ───────────────────────────────────────────────────────────────────

/// Joining keeps every part, with one separator between each two: adding a part at the end
/// adds the separator and the part, unless it is the first.
pub proof fn joining_keeps_every_part(parts: Seq<Seq<char>>, last: Seq<char>, sep: Seq<char>)
    ensures
        text::joined(seq![], sep).len() == 0,
        text::joined(seq![last], sep) == last,
        parts.len() > 0 ==> text::joined(parts.push(last), sep) == text::joined(parts, sep) + sep
            + last,
{
    assert(parts.push(last).drop_last() =~= parts);
    assert(seq![last][0] == last);
}

/// A text holds another exactly if it is something before it, the other, and something
/// after it; it begins with it exactly if there is nothing before.
pub proof fn a_text_holds_its_parts(before: Seq<char>, needle: Seq<char>, after: Seq<char>)
    ensures
        text::holds(before + needle + after, needle),
        text::begins(needle + after, needle),
{
    let hay = before + needle + after;
    assert(hay.subrange(
        before.len() as int,
        before.len() as int + needle.len(),
    ) =~= needle);
    assert(text::occurs_at(hay, needle, before.len() as int));
    assert((needle + after).subrange(0, needle.len() as int) =~= needle);
}

/// What a text is found to hold stands in it, character by character; what it begins with
/// stands at its start.
pub proof fn what_is_held_stands_in_the_text(hay: Seq<char>, needle: Seq<char>)
    ensures
        text::holds(hay, needle) ==> exists|i: int|
            0 <= i <= hay.len() - needle.len() && #[trigger] stands(hay, needle, i),
        text::begins(hay, needle) ==> needle.len() <= hay.len() && stands(hay, needle, 0),
{
    if text::holds(hay, needle) {
        let i = choose|i: int| text::occurs_at(hay, needle, i);
        lemma_stands(hay, needle, i);
    }
    if text::begins(hay, needle) {
        lemma_stands(hay, needle, 0);
    }
}

/// From `i` on the characters of `hay` are those of `needle`.
pub open spec fn stands(hay: Seq<char>, needle: Seq<char>, i: int) -> bool {
    forall|j: int| 0 <= j < needle.len() ==> hay[i + j] == #[trigger] needle[j]
}

proof fn lemma_stands(hay: Seq<char>, needle: Seq<char>, i: int)
    requires
        text::occurs_at(hay, needle, i),
    ensures
        0 <= i <= hay.len() - needle.len(),
        stands(hay, needle, i),
{
    let part = hay.subrange(i, i + needle.len());
    assert forall|j: int| 0 <= j < needle.len() implies hay[i + j] == #[trigger] needle[j] by {
        assert(part[j] == needle[j]);
    }
}

} // verus!
