//! What the command line prints, and how its flags are read.

use crate::absorb;
use crate::absorb::Absorbed;
use crate::git::FileFavor;
use crate::oid::Oid;
use crate::ops;
use crate::ops::Opts;
use crate::rewrite::{Outcome, OutcomeV};
use crate::text;
use crate::undo::UndoEntry;
use vstd::prelude::*;

verus! {

/// The conflict rule that the flags choose.
pub open spec fn favor_of(ours: bool, theirs: bool, union: bool) -> Option<FileFavor> {
    if ours {
        Some(FileFavor::Ours)
    } else if theirs {
        Some(FileFavor::Theirs)
    } else if union {
        Some(FileFavor::Union)
    } else {
        None
    }
}

/// The options that the flags stand for.
pub fn opts(
    ignore_whitespace: bool,
    ours: bool,
    theirs: bool,
    union: bool,
    dry_run: bool,
    no_restack: bool,
) -> (o: Opts)
    ensures
        o == (Opts {
            ignore_ws: ignore_whitespace,
            favor: favor_of(ours, theirs, union),
            dry_run,
            no_restack,
        }),
{
    let favor = if ours {
        Some(FileFavor::Ours)
    } else if theirs {
        Some(FileFavor::Theirs)
    } else if union {
        Some(FileFavor::Union)
    } else {
        None
    };
    Opts { ignore_ws: ignore_whitespace, favor, dry_run, no_restack }
}

/// See [`report`].
pub open spec fn report_of(o: OutcomeV, dry: bool) -> Seq<char> {
    let branch = ops::last_part(o.branch);
    if dry {
        branch + " would move "@ + o.old_tip.spec_short() + " -> "@ + o.new_tip.spec_short()
            + " (dry run; nothing changed)"@
    } else {
        branch + " now at "@ + o.new_tip.spec_short() + " (was "@ + o.old_tip.spec_short()
            + "; undo: git-transplant undo)"@
    }
}

/// One line per successful operation: where the branch landed (or would land) and
/// how to get back. The old tip is always printed, so recovery by hand stays
/// possible.
pub fn report(o: &Outcome, dry: bool) -> (s: String)
    ensures
        s@ == report_of(o@, dry),
{
    let branch = o.short_branch().to_owned();
    if dry {
        branch.concat(" would move ").concat(&o.old_tip.short()).concat(" -> ").concat(
            &o.new_tip.short(),
        ).concat(" (dry run; nothing changed)")
    } else {
        branch.concat(" now at ").concat(&o.new_tip.short()).concat(" (was ").concat(
            &o.old_tip.short(),
        ).concat("; undo: git-transplant undo)")
    }
}

/// The line for an operation that may have changed nothing.
pub fn result_line(o: &Outcome, dry: bool) -> (s: String)
    ensures
        s@ == if o.new_tip == o.old_tip {
            "no change"@
        } else {
            report_of(o@, dry)
        },
{
    if o.new_tip == o.old_tip {
        "no change".to_owned()
    } else {
        report(o, dry)
    }
}

/// What a sibling's move is called.
pub open spec fn restack_word(dry: bool) -> Seq<char> {
    if dry {
        "would restack"@
    } else {
        "restacked"@
    }
}

pub fn restack_verb(dry: bool) -> (s: &'static str)
    ensures
        s@ == restack_word(dry),
{
    if dry {
        "would restack"
    } else {
        "restacked"
    }
}

/// `verb` before each sibling that was carried along.
pub open spec fn restack_lines(restacked: Seq<Seq<char>>, verb: Seq<char>) -> Seq<Seq<char>> {
    restacked.map_values(|r: Seq<char>| verb + " "@ + r)
}

/// A commit that vanished because its change was already present takes its message
/// with it. Say so.
pub open spec fn dropped_line(c: Oid, summary: Seq<char>) -> Seq<char> {
    "dropped "@ + c.spec_short() + " "@ + summary + " (became empty; its message is gone)"@
}

/// The lines for the dropped commits, by their summaries.
pub open spec fn dropped_lines(dropped: Seq<Oid>, summaries: Seq<Seq<char>>) -> Seq<Seq<char>> {
    Seq::new(
        dropped.len(),
        |i: int|
            dropped_line(
                dropped[i],
                if i < summaries.len() {
                    summaries[i]
                } else {
                    Seq::empty()
                },
            ),
    )
}

/// What to print about the siblings and the dropped commits: something that
/// *worked*. `summaries` are those of the dropped commits.
pub fn report_restacks(o: &Outcome, verb: &str, summaries: &Vec<String>) -> (v: Vec<String>)
    ensures
        text::texts(v@) == restack_lines(o@.restacked, verb@) + dropped_lines(
            o@.dropped,
            text::texts(summaries@),
        ),
{
    let ghost moved = restack_lines(o@.restacked, verb@);
    let ghost gone = dropped_lines(o@.dropped, text::texts(summaries@));
    let mut v: Vec<String> = Vec::new();
    let mut i: usize = 0;
    while i < o.restacked.len()
        invariant
            0 <= i <= o.restacked@.len(),
            moved == restack_lines(o@.restacked, verb@),
            text::texts(v@) == moved.take(i as int),
        decreases o.restacked@.len() - i,
    {
        let ghost before = text::texts(v@);
        v.push(verb.to_owned().concat(" ").concat(&o.restacked[i]));
        i += 1;
        assert(text::texts(v@) =~= before.push(moved[i - 1]));
        assert(moved.take(i as int) =~= moved.take(i - 1).push(moved[i - 1]));
    }
    assert(moved.take(i as int) =~= moved);
    assert(moved + gone.take(0) =~= moved);
    let mut j: usize = 0;
    while j < o.dropped.len()
        invariant
            0 <= j <= o.dropped@.len(),
            gone == dropped_lines(o@.dropped, text::texts(summaries@)),
            text::texts(v@) == moved + gone.take(j as int),
        decreases o.dropped@.len() - j,
    {
        let ghost before = text::texts(v@);
        let summary = if j < summaries.len() {
            summaries[j].clone()
        } else {
            String::new()
        };
        proof {
            if j >= summaries@.len() {
                assert(summary@ =~= Seq::empty());
            }
        }
        v.push(
            "dropped ".to_owned().concat(&o.dropped[j].short()).concat(" ").concat(
                &summary,
            ).concat(" (became empty; its message is gone)"),
        );
        j += 1;
        assert(text::texts(v@) =~= before.push(gone[j - 1]));
        assert(moved + gone.take(j as int) =~= (moved + gone.take(j - 1)).push(gone[j - 1]));
    }
    assert(gone.take(j as int) =~= gone);
    v
}

/// The warnings, each marked as one.
pub fn warning_lines(o: &Outcome) -> (v: Vec<String>)
    ensures
        text::texts(v@) == o@.warnings.map_values(|w: Seq<char>| "warning: "@ + w),
{
    let ghost all = o@.warnings.map_values(|w: Seq<char>| "warning: "@ + w);
    let mut v: Vec<String> = Vec::new();
    let mut i: usize = 0;
    while i < o.warnings.len()
        invariant
            0 <= i <= o.warnings@.len(),
            all == o@.warnings.map_values(|w: Seq<char>| "warning: "@ + w),
            text::texts(v@) == all.take(i as int),
        decreases o.warnings@.len() - i,
    {
        let ghost before = text::texts(v@);
        v.push("warning: ".to_owned().concat(&o.warnings[i]));
        i += 1;
        assert(text::texts(v@) =~= before.push(all[i - 1]));
        assert(all.take(i as int) =~= all.take(i - 1).push(all[i - 1]));
    }
    assert(all.take(i as int) =~= all);
    v
}

/// Where an undo put the branch back to, or would.
pub open spec fn undo_line_of(o: OutcomeV, dry: bool) -> Seq<char> {
    let branch = ops::last_part(o.branch);
    if dry {
        branch + " would go back to "@ + o.new_tip.spec_short() + " (from "@
            + o.old_tip.spec_short() + ") (dry run; nothing changed)"@
    } else {
        branch + " restored to "@ + o.new_tip.spec_short() + " (was "@ + o.old_tip.spec_short()
            + "; redo: git-transplant undo)"@
    }
}

/// See [`undo_line_of`].
pub fn undo_line(o: &Outcome, dry: bool) -> (s: String)
    ensures
        s@ == undo_line_of(o@, dry),
{
    let branch = o.short_branch().to_owned();
    if dry {
        branch.concat(" would go back to ").concat(&o.new_tip.short()).concat(" (from ").concat(
            &o.old_tip.short(),
        ).concat(") (dry run; nothing changed)")
    } else {
        branch.concat(" restored to ").concat(&o.new_tip.short()).concat(" (was ").concat(
            &o.old_tip.short(),
        ).concat("; redo: git-transplant undo)")
    }
}

/// A line of the undo history.
pub open spec fn history_line(e: UndoEntry) -> Seq<char> {
    (if e.next {
        "*"@
    } else {
        " "@
    }) + " "@ + e.old.spec_short() + " -> "@ + e.new.spec_short() + "  "@ + e.message@
}

/// The branch's history of runs, newest first, with the entry marked that a plain
/// undo would reverse.
pub open spec fn history(branch: Seq<char>, entries: Seq<UndoEntry>) -> Seq<Seq<char>> {
    let b = ops::last_part(branch);
    if entries.len() == 0 {
        seq![b + ": no git-transplant operations in its reflog"@]
    } else {
        seq![
            b + ": "@ + text::decimal_of(entries.len())
                + " git-transplant operation(s), newest first"@,
        ] + entries.map_values(|e: UndoEntry| history_line(e)) + seq![
            "(* = what `git-transplant undo` reverses, putting "@ + b + " back at "@
                + entries[0].old.spec_short() + ")"@,
        ]
    }
}

/// See [`history`].
pub fn list_undo(branch: &str, entries: &Vec<UndoEntry>) -> (v: Vec<String>)
    ensures
        text::texts(v@) == history(branch@, entries@),
{
    let b = ops::short_branch(branch);
    let mut v: Vec<String> = Vec::new();
    if entries.len() == 0 {
        v.push(b.to_owned().concat(": no git-transplant operations in its reflog"));
        assert(text::texts(v@) =~= history(branch@, entries@));
        return v;
    }
    v.push(
        b.to_owned().concat(": ").concat(&text::decimal(entries.len())).concat(
            " git-transplant operation(s), newest first",
        ),
    );
    let ghost head = text::texts(v@);
    let ghost all = entries@.map_values(|e: UndoEntry| history_line(e));
    let mut i: usize = 0;
    assert(head + all.take(0) =~= head);
    while i < entries.len()
        invariant
            0 <= i <= entries@.len(),
            all == entries@.map_values(|e: UndoEntry| history_line(e)),
            text::texts(v@) == head + all.take(i as int),
        decreases entries@.len() - i,
    {
        let ghost before = text::texts(v@);
        let e = &entries[i];
        let mark = if e.next {
            "*".to_owned()
        } else {
            " ".to_owned()
        };
        v.push(
            mark.concat(" ").concat(&e.old.short()).concat(" -> ").concat(&e.new.short()).concat(
                "  ",
            ).concat(&e.message),
        );
        i += 1;
        assert(text::texts(v@) =~= before.push(all[i - 1]));
        assert(head + all.take(i as int) =~= (head + all.take(i - 1)).push(all[i - 1]));
    }
    assert(all.take(i as int) =~= all);
    let ghost before = text::texts(v@);
    v.push(
        "(* = what `git-transplant undo` reverses, putting ".to_owned().concat(b).concat(
            " back at ",
        ).concat(&entries[0].old.short()).concat(")"),
    );
    assert(text::texts(v@) =~= before.push(v@.last()@));
    assert(text::texts(v@) =~= history(branch@, entries@));
    v
}

/// The routing table of the first `n` routes: each path once, above the hunks that
/// follow one another in it, and for each hunk where it goes.
pub open spec fn table(
    routes: Seq<(Seq<char>, Seq<char>, Oid)>,
    summaries: Seq<Seq<char>>,
    n: int,
) -> Seq<Seq<char>>
    decreases n,
{
    if n <= 0 {
        Seq::empty()
    } else {
        let (path, header, target) = routes[n - 1];
        let above = table(routes, summaries, n - 1);
        let last = if n >= 2 {
            routes[n - 2].0
        } else {
            Seq::empty()
        };
        let summary = if n - 1 < summaries.len() {
            summaries[n - 1]
        } else {
            Seq::empty()
        };
        (if path != last {
            above.push(path)
        } else {
            above
        }).push("    "@ + header + " -> "@ + target.spec_short() + " "@ + summary)
    }
}

/// See [`table`]: which hunk lands in which commit, before anything is rewritten.
/// `summaries` are those of the targets.
pub fn routing_table(a: &Absorbed, summaries: &Vec<String>) -> (v: Vec<String>)
    ensures
        text::texts(v@) == table(
            absorb::routes_view(a.routes@),
            text::texts(summaries@),
            a.routes@.len() as int,
        ),
{
    let ghost routes = absorb::routes_view(a.routes@);
    let ghost sums = text::texts(summaries@);
    let mut v: Vec<String> = Vec::new();
    let mut i: usize = 0;
    assert(text::texts(v@) =~= Seq::empty());
    while i < a.routes.len()
        invariant
            routes == absorb::routes_view(a.routes@),
            sums == text::texts(summaries@),
            0 <= i <= a.routes@.len(),
            text::texts(v@) == table(routes, sums, i as int),
        decreases a.routes@.len() - i,
    {
        let ghost before = text::texts(v@);
        let r = &a.routes[i];
        let new = if i > 0 {
            !text::same_text(&r.0, &a.routes[i - 1].0)
        } else {
            !r.0.as_str().is_empty()
        };
        proof {
            if i > 0 {
                assert(routes[i - 1] == (a.routes@[i - 1].0@, a.routes@[i - 1].1@, a.routes@[i - 1].2));
            }
            assert(routes[i as int] == (r.0@, r.1@, r.2));
            assert(r.0@.len() == 0 <==> r.0@ =~= Seq::empty());
        }
        if new {
            v.push(r.0.clone());
            assert(text::texts(v@) =~= before.push(r.0@));
        }
        let ghost mid = text::texts(v@);
        let summary = if i < summaries.len() {
            summaries[i].clone()
        } else {
            String::new()
        };
        proof {
            if i >= summaries@.len() {
                assert(summary@ =~= Seq::empty());
            } else {
                assert(summary@ == sums[i as int]);
            }
        }
        v.push(
            "    ".to_owned().concat(&r.1).concat(" -> ").concat(&r.2.short()).concat(" ").concat(
                &summary,
            ),
        );
        assert(text::texts(v@) =~= mid.push(v@.last()@));
        i += 1;
    }
    v
}

/// What an absorb did, or would do.
pub open spec fn absorb_line_of(
    outcome: Option<OutcomeV>,
    folded: nat,
    orphans: nat,
    dry: bool,
) -> Seq<char> {
    match outcome {
        Some(o) => (if dry {
            "would absorb"@
        } else {
            "absorbed"@
        }) + " "@ + text::decimal_of(folded) + " hunk(s) ("@ + text::decimal_of(orphans)
            + " left staged); "@ + report_of(o, dry),
        None => "nothing absorbed ("@ + text::decimal_of(orphans)
            + " hunk(s) had no home in range)"@,
    }
}

/// See [`absorb_line_of`].
pub fn absorb_line(a: &Absorbed, dry: bool) -> (s: String)
    ensures
        s@ == absorb_line_of(
            match a.outcome {
                Some(o) => Some(o@),
                None => None,
            },
            a.folded as nat,
            a.orphans as nat,
            dry,
        ),
{
    match &a.outcome {
        Some(o) => {
            let verb = if dry {
                "would absorb".to_owned()
            } else {
                "absorbed".to_owned()
            };
            verb.concat(" ").concat(&text::decimal(a.folded)).concat(" hunk(s) (").concat(
                &text::decimal(a.orphans),
            ).concat(" left staged); ").concat(&report(o, dry))
        },
        None => "nothing absorbed (".to_owned().concat(&text::decimal(a.orphans)).concat(
            " hunk(s) had no home in range)",
        ),
    }
}

} // verus!
