//! What holds of every plan that folds, rewords or moves.

use crate::absorb;
use crate::absorb::FoldV;
use crate::engine;
use crate::engine::{EditV, RecipeV};
use crate::git;
use crate::git::StackV;
use crate::oid::Oid;
use crate::patch;
use crate::recipe;
use crate::recipe::{MoveV, PlanV};
use crate::shape_laws;
use crate::store;
use crate::store::{AnswerV, AskV, CommitV, Entry, Known, QueryV};
use crate::trace_laws;
use crate::ErrorV;
use vstd::prelude::*;

verus! {

/// The plan starts from the first parent of `c`, or from nothing where that has none: `c`
/// itself is the first that it replays.
pub open spec fn from_below(k: Known, c: Oid, p: PlanV) -> bool {
    exists|i: CommitV| #[trigger]
        trace_laws::is_commit(k, c, i) && if i.parents.len() == 0 {
            p.base is None
        } else {
            p.base == Some(i.parents[0])
        }
}

/// The commit is `head`, or the object store says that it is an ancestor of it.
pub open spec fn in_history(k: Known, c: Oid, head: Oid) -> bool {
    let q = QueryV::Reaches { ancestor: c, from: head };
    c == head || (k.contains_key(q) && k[q] == AnswerV::Truth(true))
}

/// The commit `c` was made, with the tree, on top of the parent.
pub open spec fn made_on(k: Known, tree: Oid, parent: Oid, message: Seq<char>, c: Oid) -> bool {
    let q = QueryV::Create { tree, parent, message, like: None };
    k.contains_key(q) && k[q] == AnswerV::Object(c)
}

/// A fix is planned only for a commit of the tip's history. It replays from the target
/// up to the tip, and edits the target and nothing else: what was staged on top of the tip
/// is applied there. No message changes.
pub proof fn a_fix_applies_the_staged_change_at_its_target(
    k: Known,
    target: Oid,
    head: Oid,
    staged: Oid,
)
    ensures
        recipe::fix_in(k, target, head, staged) matches AskV::Have(p) ==> {
            &&& in_history(k, target, head)
            &&& p.tip == head
            &&& from_below(k, target, p)
            &&& p.recipe.messages.len() == 0
            &&& exists|c: Oid, message: Seq<char>| #[trigger]
                made_on(k, staged, head, message, c) && p.recipe.edits == seq![
                    (target, EditV::ApplyChange(c)),
                ]
        },
        ({
            let q = QueryV::Reaches { ancestor: target, from: head };
            target != head && k.contains_key(q) && k[q] == AnswerV::Truth(false)
                ==> recipe::fix_in(k, target, head, staged) == AskV::<PlanV>::Fail(
                ErrorV::TargetNotAncestor,
            )
        }),
{
    if let AskV::Have(p) = recipe::fix_in(k, target, head, staged) {
        let i = store::commit_in(k, target)->Have_0;
        assert(trace_laws::is_commit(k, target, i));
        let q = QueryV::Create { tree: staged, parent: head, message: "fixup"@, like: None };
        let c = store::object_in(k, q)->Have_0;
        assert(made_on(k, staged, head, "fixup"@, c));
        assert(p.recipe.edits =~= seq![(target, EditV::ApplyChange(c))]);
    }
}

/// A reword is planned only for a commit of the tip's history. It replays from that commit
/// up to the tip, edits nothing, and gives that commit and no other a message: what was
/// typed, up to the white space at its end, and one newline.
pub proof fn a_reword_gives_one_commit_another_message(
    k: Known,
    rev: Oid,
    head: Oid,
    msg: Seq<char>,
)
    ensures
        recipe::reword_in(k, rev, head, msg) matches AskV::Have(p) ==> {
            &&& in_history(k, rev, head)
            &&& p.tip == head
            &&& from_below(k, rev, p)
            &&& p.recipe.edits.len() == 0
            &&& p.recipe.messages.len() == 1
            &&& p.recipe.messages[0].0 == rev
            &&& exists|n: int|
                {
                    let m = p.recipe.messages[0].1;
                    &&& #[trigger] shape_laws::ends_in_white(msg, n)
                    &&& m.len() == n + 1
                    &&& m.subrange(0, n) == msg.subrange(0, n)
                    &&& m[n] == '\n'
                }
        },
        ({
            let q = QueryV::Reaches { ancestor: rev, from: head };
            rev != head && k.contains_key(q) && k[q] == AnswerV::Truth(false)
                ==> recipe::reword_in(k, rev, head, msg) == AskV::<PlanV>::Fail(
                ErrorV::TargetNotAncestor,
            )
        }),
{
    if let AskV::Have(p) = recipe::reword_in(k, rev, head, msg) {
        let i = store::commit_in(k, rev)->Have_0;
        assert(trace_laws::is_commit(k, rev, i));
        shape_laws::a_reword_keeps_what_was_typed(msg);
    }
}

// ── moving a file ───────────────────────────────────────────────────────────

/// The commit is known, and so is what it has at the path, if anything.
pub open spec fn has_file(
    k: Known,
    c: Oid,
    path: Seq<char>,
    i: CommitV,
    e: Option<Entry>,
) -> bool {
    let q = QueryV::Path { tree: i.tree, path };
    trace_laws::is_commit(k, c, i) && k.contains_key(q) && k[q] == AnswerV::Entry(e)
}

/// The commit at `x` has the file as the blob, and its first parent is the next one.
pub open spec fn carries_on_the_way(
    k: Known,
    m: MoveV,
    blob: Oid,
    line: Seq<Oid>,
    below: Option<Oid>,
    x: int,
) -> bool {
    exists|i: CommitV, e: Entry|
        {
            &&& #[trigger] has_file(k, line[x], m.path, i, Some(e))
            &&& e.id == blob
            &&& if x + 1 < line.len() {
                i.parents.len() > 0 && i.parents[0] == line[x + 1]
            } else if i.parents.len() > 0 {
                below == Some(i.parents[0])
            } else {
                below is None
            }
        }
}

/// From the target down by first parents, the commits `line` have the file as the blob,
/// and `below` comes after the last of them.
pub open spec fn carry_the_file(
    k: Known,
    m: MoveV,
    blob: Oid,
    line: Seq<Oid>,
    below: Option<Oid>,
) -> bool {
    &&& line.len() > 0
    &&& line[0] == m.target
    &&& forall|x: int|
        0 <= x < line.len() ==> #[trigger] carries_on_the_way(k, m, blob, line, below, x)
}

/// The commit does not have the file.
pub open spec fn lacks_the_file(k: Known, c: Oid, path: Seq<char>) -> bool {
    exists|i: CommitV| #[trigger] has_file(k, c, path, i, None)
}

/// The plan takes the file out of the commits below the target that carry it, `line`
/// without the target, and puts it back at the target as that has it.
pub open spec fn takes_out_below(m: MoveV, e: Entry, line: Seq<Oid>, p: PlanV) -> bool {
    &&& p.recipe.edits.len() == line.len()
    &&& forall|x: int|
        0 < x < line.len() ==> #[trigger] p.recipe.edits[x - 1] == (
            line[x],
            EditV::RemoveFile { path: m.path },
        )
    &&& p.recipe.edits[line.len() - 1] == (
        m.target,
        EditV::SetFile { path: m.path, blob: e.id, mode: e.mode },
    )
}

/// The plan puts the file at the target and does nothing else.
pub open spec fn puts_at_target(m: MoveV, e: Entry, p: PlanV) -> bool {
    p.recipe.edits == seq![(m.target, EditV::SetFile { path: m.path, blob: e.id, mode: e.mode })]
}

proof fn lemma_removals(path: Seq<char>, line: Seq<Oid>, n: int)
    requires
        n <= line.len(),
    ensures
        recipe::removals(path, line, n).messages.len() == 0,
        recipe::removals(path, line, n).edits.len() == if n <= 1 {
            0
        } else {
            n - 1
        },
        forall|x: int|
            0 < x < n ==> #[trigger] recipe::removals(path, line, n).edits[x - 1] == (
                line[x],
                EditV::RemoveFile { path },
            ),
    decreases n,
{
    if n > 1 {
        lemma_removals(path, line, n - 1);
        let r = recipe::removals(path, line, n);
        let before = recipe::removals(path, line, n - 1);
        assert forall|x: int| 0 < x < n implies #[trigger] r.edits[x - 1] == (
            line[x],
            EditV::RemoveFile { path },
        ) by {
            if x < n - 1 {
                assert(before.edits[x - 1] == (line[x], EditV::RemoveFile { path }));
            }
        }
    }
}

/// The target has the file. It is taken out of every commit below that carries it without a
/// gap, all with the content that the target has, and set again at the target as it is
/// there. The replay starts below the lowest of them, where the file is not.
pub open spec fn moves_it_up(k: Known, m: MoveV, p: PlanV) -> bool {
    exists|i: CommitV, e: Entry, line: Seq<Oid>|
        {
            &&& #[trigger] has_file(k, m.target, m.path, i, Some(e))
            &&& #[trigger] carry_the_file(k, m, e.id, line, p.base)
            &&& line.len() > 1
            &&& p.base matches Some(b) ==> lacks_the_file(k, b, m.path)
            &&& takes_out_below(m, e, line, p)
        }
}

/// The commit at `n` is the first after the target that has the file, as `e`. A commit whose
/// tree cannot be read is passed over.
pub open spec fn comes_in_at(k: Known, m: MoveV, after: StackV, n: int, e: Entry) -> bool {
    &&& git::is_linear(k, Some(m.target), m.head, after)
    &&& 0 <= n < after.rows.len()
    &&& has_file(k, after.rows[n].0, m.path, after.rows[n].1, Some(e))
    &&& forall|x: int|
        0 <= x < n ==> !(k[QueryV::Path { tree: (#[trigger] after.rows[x]).1.tree, path: m.path }]
            matches AnswerV::Entry(Some(_)))
}

/// The commit at `x` does not have the file, and its first parent is the next one.
pub open spec fn lacks_on_the_way(
    k: Known,
    m: MoveV,
    line: Seq<Oid>,
    below: Option<Oid>,
    x: int,
) -> bool {
    exists|i: CommitV| #[trigger]
        has_file(k, line[x], m.path, i, None) && if x + 1 < line.len() {
            i.parents.len() > 0 && i.parents[0] == line[x + 1]
        } else if i.parents.len() > 0 {
            below == Some(i.parents[0])
        } else {
            below is None
        }
}

/// From the target down by first parents, none of the commits `line` has the file, and
/// `below` comes after the last of them.
pub open spec fn lack_the_file(
    k: Known,
    m: MoveV,
    line: Seq<Oid>,
    below: Option<Oid>,
) -> bool {
    &&& line.len() > 0
    &&& line[0] == m.target
    &&& forall|x: int| 0 <= x < line.len() ==> #[trigger] lacks_on_the_way(k, m, line, below, x)
}

/// The target does not have the file. It is set there as the first commit after it that
/// has it has it, and nothing is taken out. The target's history did not have it and lose
/// it, as far as that can be read.
pub open spec fn moves_it_down(k: Known, m: MoveV, p: PlanV) -> bool {
    &&& from_below(k, m.target, p)
    &&& exists|after: StackV, n: int, e: Entry| #[trigger]
        comes_in_at(k, m, after, n, e) && puts_at_target(m, e, p)
    &&& exists|line: Seq<Oid>, below: Option<Oid>| #[trigger]
        lack_the_file(k, m, line, below) && (below matches Some(o) ==> recipe::file_in(
            k,
            m.path,
            o,
        ) is Fail)
}

proof fn lemma_lack(k: Known, m: MoveV, line: Seq<Oid>, below: Option<Oid>)
    requires
        recipe::descends(k, m, None, line, below),
        recipe::file_in(k, m.path, m.target) matches AskV::Have((None, _)),
    ensures
        lack_the_file(k, m, line, below),
{
    assert forall|x: int| 0 <= x < line.len() implies #[trigger] lacks_on_the_way(
        k,
        m,
        line,
        below,
        x,
    ) by {
        let c = line[x];
        let i = store::commit_in(k, c)->Have_0;
        assert(recipe::file_in(k, m.path, line[x]) is Have);
        assert(has_file(k, c, m.path, i, None));
    }
}

proof fn lemma_carry(k: Known, m: MoveV, blob: Oid, line: Seq<Oid>, below: Option<Oid>)
    requires
        recipe::descends(k, m, Some(blob), line, below),
        recipe::file_in(k, m.path, m.target) matches AskV::Have((Some(e), _)) && e.id == blob,
    ensures
        carry_the_file(k, m, blob, line, below),
{
    assert forall|x: int| 0 <= x < line.len() implies #[trigger] carries_on_the_way(
        k,
        m,
        blob,
        line,
        below,
        x,
    ) by {
        let c = line[x];
        let i = store::commit_in(k, c)->Have_0;
        assert(recipe::file_in(k, m.path, line[x]) is Have);
        let e = recipe::file_in(k, m.path, line[x])->Have_0.0;
        assert(has_file(k, c, m.path, i, Some(e->0)));
    }
}

proof fn lemma_lacks(k: Known, c: Oid, path: Seq<char>)
    requires
        recipe::file_in(k, path, c) matches AskV::Have((None, _)),
    ensures
        lacks_the_file(k, c, path),
{
    let i = store::commit_in(k, c)->Have_0;
    assert(has_file(k, c, path, i, None));
}

proof fn lemma_taken_out(m: MoveV, e: Entry, line: Seq<Oid>, below: Option<Oid>, p: PlanV)
    requires
        line.len() > 0,
        recipe::stripped(m, e, line, below) == AskV::Have(p),
    ensures
        line.len() > 1,
        p.base == below,
        p.tip == m.head,
        p.recipe.messages.len() == 0,
        takes_out_below(m, e, line, p),
{
    lemma_removals(m.path, line, line.len() as int);
    let r = recipe::removals(m.path, line, line.len() as int);
    assert forall|x: int| 0 < x < line.len() implies #[trigger] p.recipe.edits[x - 1] == (
        line[x],
        EditV::RemoveFile { path: m.path },
    ) by {
        assert(r.edits[x - 1] == (line[x], EditV::RemoveFile { path: m.path }));
    }
}

proof fn lemma_stripped(k: Known, m: MoveV, e: Entry, p: PlanV)
    requires
        recipe::file_in(k, m.path, m.target) matches AskV::Have((Some(x), _)) && x == e,
        recipe::strips(k, m, e, AskV::Have(p)),
    ensures
        p.tip == m.head,
        p.recipe.messages.len() == 0,
        moves_it_up(k, m, p),
{
    let (line, below) = choose|line: Seq<Oid>, below: Option<Oid>| #[trigger]
        recipe::descends(k, m, Some(e.id), line, below) && match below {
            None => AskV::Have(p) == recipe::stripped(m, e, line, below),
            Some(o) => match recipe::file_in(k, m.path, o) {
                AskV::Need(_) => false,
                AskV::Fail(f) => AskV::Have(p) == AskV::<PlanV>::Fail(f),
                AskV::Have((None, _)) => AskV::Have(p) == recipe::stripped(m, e, line, below),
                AskV::Have((Some(x), _)) => x.id != e.id && AskV::Have(p) == AskV::<
                    PlanV,
                >::Fail(ErrorV::FileModified { path: m.path, commit: o }),
            },
        };
    lemma_taken_out(m, e, line, below, p);
    lemma_carry(k, m, e.id, line, below);
    if let Some(b) = below {
        lemma_lacks(k, b, m.path);
    }
    let i = store::commit_in(k, m.target)->Have_0;
    assert(has_file(k, m.target, m.path, i, Some(e)));
    assert(carry_the_file(k, m, e.id, line, p.base));
}

proof fn lemma_planted(k: Known, m: MoveV, base: Option<Oid>, p: PlanV)
    requires
        recipe::file_in(k, m.path, m.target) == AskV::Have((None::<Entry>, base)),
        recipe::plants(k, m, base, AskV::Have(p)),
    ensures
        p.tip == m.head,
        p.recipe.messages.len() == 0,
        moves_it_down(k, m, p),
{
    lemma_lacks(k, m.target, m.path);
    let i = store::commit_in(k, m.target)->Have_0;
    assert(trace_laws::is_commit(k, m.target, i));
    let after = choose|after: StackV| #[trigger]
        git::is_linear(k, Some(m.target), m.head, after) && match recipe::introduced_in(
            k,
            m.path,
            after.rows,
            0,
        ) {
            AskV::Have(None) => AskV::Have(p) == AskV::<PlanV>::Fail(
                ErrorV::PathNotFound { path: m.path },
            ),
            AskV::Have(Some(e)) => recipe::digs(k, m, base, e, AskV::Have(p)),
            _ => false,
        };
    let e = recipe::introduced_in(k, m.path, after.rows, 0)->Have_0->0;
    let n = lemma_introduced(k, m.path, after.rows, 0);
    assert(git::is_linear(k, Some(m.target), m.head, after));
    let rows = after.rows.reverse();
    let x = after.rows.len() - 1 - n;
    assert(rows[x] == after.rows[n]);
    assert(store::commit_in(k, rows[x].0) == AskV::Have(rows[x].1));
    assert(has_file(k, after.rows[n].0, m.path, after.rows[n].1, Some(e)));
    assert(comes_in_at(k, m, after, n, e));
    let (line, below) = choose|line: Seq<Oid>, below: Option<Oid>| #[trigger]
        recipe::descends(k, m, None, line, below) && match below {
            None => AskV::Have(p) == recipe::planted(m, e, base, None),
            Some(o) => match recipe::file_in(k, m.path, o) {
                AskV::Need(_) => false,
                AskV::Fail(_) => AskV::Have(p) == recipe::planted(m, e, base, None),
                AskV::Have((None, _)) => false,
                AskV::Have((Some(_), _)) => AskV::Have(p) == recipe::planted(
                    m,
                    e,
                    base,
                    Some(line.last()),
                ),
            },
        };
    lemma_lack(k, m, line, below);
    assert(lack_the_file(k, m, line, below));
    assert(p.base == base);
    assert(p.recipe.edits =~= seq![
        (m.target, EditV::SetFile { path: m.path, blob: e.id, mode: e.mode }),
    ]);
}

/// How a file is moved, by whether the target has it: see [`moves_it_up`] and
/// [`moves_it_down`]. The target is in the tip's history, the replay goes up to the tip,
/// and no message changes.
pub proof fn a_move_makes_a_file_appear_at_its_target(k: Known, m: MoveV, p: PlanV)
    requires
        recipe::moves(k, m, AskV::Have(p)),
    ensures
        in_history(k, m.target, m.head),
        p.tip == m.head,
        p.recipe.messages.len() == 0,
        moves_it_up(k, m, p) || moves_it_down(k, m, p),
{
    match recipe::placed_in(k, m)->Have_0 {
        (Some(e), _) => lemma_stripped(k, m, e, p),
        (None, base) => lemma_planted(k, m, base, p),
    }
}

/// A move that finds the file modified names a commit below the target that has the file
/// with another content than the target has.
pub proof fn a_move_over_a_change_is_refused(k: Known, m: MoveV, commit: Oid)
    requires
        recipe::moves(
            k,
            m,
            AskV::<PlanV>::Fail(ErrorV::FileModified { path: m.path, commit }),
        ),
        recipe::placed_in(k, m) is Have,
    ensures
        recipe::placed_in(k, m)->Have_0.0 is Some ==> exists|
            i: CommitV,
            e: Entry,
            j: CommitV,
            f: Entry,
        |
            {
                &&& #[trigger] has_file(k, m.target, m.path, i, Some(e))
                &&& #[trigger] has_file(k, commit, m.path, j, Some(f))
                &&& e.id != f.id
            },
{
    let r = AskV::<PlanV>::Fail(ErrorV::FileModified { path: m.path, commit });
    if let (Some(e), _) = recipe::placed_in(k, m)->Have_0 {
        let (line, below) = choose|line: Seq<Oid>, below: Option<Oid>| #[trigger]
            recipe::descends(k, m, Some(e.id), line, below) && match below {
                None => r == recipe::stripped(m, e, line, below),
                Some(o) => match recipe::file_in(k, m.path, o) {
                    AskV::Need(_) => false,
                    AskV::Fail(f) => r == AskV::<PlanV>::Fail(f),
                    AskV::Have((None, _)) => r == recipe::stripped(m, e, line, below),
                    AskV::Have((Some(x), _)) => x.id != e.id && r == AskV::<PlanV>::Fail(
                        ErrorV::FileModified { path: m.path, commit: o },
                    ),
                },
            };
        let i = store::commit_in(k, m.target)->Have_0;
        assert(has_file(k, m.target, m.path, i, Some(e)));
        let j = store::commit_in(k, commit)->Have_0;
        let f = recipe::file_in(k, m.path, commit)->Have_0.0->0;
        assert(has_file(k, commit, m.path, j, Some(f)));
    }
}

proof fn lemma_introduced(k: Known, path: Seq<char>, rows: Seq<(Oid, CommitV)>, i: int) -> (n: int)
    requires
        0 <= i,
        recipe::introduced_in(k, path, rows, i) matches AskV::Have(Some(_)),
    ensures
        i <= n < rows.len(),
        store::entry_in(k, QueryV::Path { tree: rows[n].1.tree, path })
            == recipe::introduced_in(k, path, rows, i),
        forall|x: int|
            i <= x < n ==> !(store::entry_in(
                k,
                QueryV::Path { tree: (#[trigger] rows[x]).1.tree, path },
            ) matches AskV::Have(Some(_))) && store::entry_in(
                k,
                QueryV::Path { tree: rows[x].1.tree, path },
            ) !is Need,
    decreases rows.len() - i,
{
    if store::entry_in(k, QueryV::Path { tree: rows[i].1.tree, path }) matches AskV::Have(Some(_)) {
        i
    } else {
        lemma_introduced(k, path, rows, i + 1)
    }
}

// ── carrying hunks ──────────────────────────────────────────────────────────

/// The target has the file, and no commit right below it does: it appears there already.
pub open spec fn appears_there(k: Known, m: MoveV) -> bool {
    exists|i: CommitV, e: Entry|
        {
            &&& #[trigger] has_file(k, m.target, m.path, i, Some(e))
            &&& i.parents.len() > 0 ==> lacks_the_file(k, i.parents[0], m.path)
        }
}

/// The target does not have the file, but going down by first parents one comes to a
/// commit that has it: it was deleted on the way.
pub open spec fn was_deleted(k: Known, m: MoveV) -> bool {
    exists|line: Seq<Oid>, o: Oid, i: CommitV, e: Entry|
        {
            &&& #[trigger] lack_the_file(k, m, line, Some(o))
            &&& #[trigger] has_file(k, o, m.path, i, Some(e))
        }
}

/// Neither the target nor any commit after it has the file.
pub open spec fn is_nowhere(k: Known, m: MoveV) -> bool {
    &&& lacks_the_file(k, m.target, m.path)
    &&& exists|after: StackV| #[trigger]
        git::is_linear(k, Some(m.target), m.head, after) && forall|x: int|
            0 <= x < after.rows.len() ==> !(k[QueryV::Path {
                tree: (#[trigger] after.rows[x]).1.tree,
                path: m.path,
            }] matches AnswerV::Entry(Some(_)))
}

proof fn lemma_introduced_nowhere(k: Known, path: Seq<char>, rows: Seq<(Oid, CommitV)>, i: int)
    requires
        0 <= i,
        recipe::introduced_in(k, path, rows, i) == AskV::Have(None::<Entry>),
    ensures
        forall|x: int|
            i <= x < rows.len() ==> !(k[QueryV::Path { tree: (#[trigger] rows[x]).1.tree, path }]
                matches AnswerV::Entry(Some(_))),
    decreases rows.len() - i,
{
    if i < rows.len() {
        lemma_introduced_nowhere(k, path, rows, i + 1);
    }
}

proof fn lemma_strip_refused(k: Known, m: MoveV, e: Entry, f: ErrorV)
    requires
        recipe::placed_in(k, m) matches AskV::Have((Some(x), _)) && x == e,
        recipe::strips(k, m, e, AskV::<PlanV>::Fail(f)),
    ensures
        f is Empty ==> appears_there(k, m),
        !(f is PathNotFound),
        !(f is TargetNotAncestor),
{
    let r = AskV::<PlanV>::Fail(f);
    let (line, below) = choose|line: Seq<Oid>, below: Option<Oid>| #[trigger]
        recipe::descends(k, m, Some(e.id), line, below) && match below {
            None => r == recipe::stripped(m, e, line, below),
            Some(o) => match recipe::file_in(k, m.path, o) {
                AskV::Need(_) => false,
                AskV::Fail(f) => r == AskV::<PlanV>::Fail(f),
                AskV::Have((None, _)) => r == recipe::stripped(m, e, line, below),
                AskV::Have((Some(x), _)) => x.id != e.id && r == AskV::<PlanV>::Fail(
                    ErrorV::FileModified { path: m.path, commit: o },
                ),
            },
        };
    let i = store::commit_in(k, m.target)->Have_0;
    assert(has_file(k, m.target, m.path, i, Some(e)));
    if f is Empty {
        assert(recipe::file_in(k, m.path, line[0]) is Have);
        assert(line.len() == 1);
        if let Some(o) = below {
            assert(i.parents.len() > 0 && i.parents[0] == o);
            let j = store::commit_in(k, o)->Have_0;
            assert(has_file(k, o, m.path, j, None));
        }
    }
}

proof fn lemma_dig_refused(k: Known, m: MoveV, base: Option<Oid>, e: Entry, f: ErrorV)
    requires
        recipe::placed_in(k, m) matches AskV::Have((None, _)),
        recipe::digs(k, m, base, e, AskV::<PlanV>::Fail(f)),
    ensures
        f is Empty,
        was_deleted(k, m),
{
    let r = AskV::<PlanV>::Fail(f);
    let (line, below) = choose|line: Seq<Oid>, below: Option<Oid>| #[trigger]
        recipe::descends(k, m, None, line, below) && match below {
            None => r == recipe::planted(m, e, base, None),
            Some(o) => match recipe::file_in(k, m.path, o) {
                AskV::Need(_) => false,
                AskV::Fail(_) => r == recipe::planted(m, e, base, None),
                AskV::Have((None, _)) => false,
                AskV::Have((Some(_), _)) => r == recipe::planted(m, e, base, Some(line.last())),
            },
        };
    lemma_lack(k, m, line, below);
    let o = below->0;
    let x = recipe::file_in(k, m.path, o)->Have_0.0->0;
    let i = store::commit_in(k, o)->Have_0;
    assert(lack_the_file(k, m, line, Some(o)));
    assert(has_file(k, o, m.path, i, Some(x)));
}

/// A move is refused for a target outside the tip's history; for a file that neither the
/// target nor a commit after it has; for one that appears at the target already; and for
/// one that the target's history had and lost. Any other refusal is a change on the way
/// (see [`a_move_over_a_change_is_refused`]) or trouble with the history.
pub proof fn a_move_that_is_refused_says_why(k: Known, m: MoveV, f: ErrorV)
    requires
        recipe::moves(k, m, AskV::<PlanV>::Fail(f)),
    ensures
        f is TargetNotAncestor ==> !in_history(k, m.target, m.head),
        f is PathNotFound ==> is_nowhere(k, m),
        f is Empty ==> appears_there(k, m) || was_deleted(k, m),
        !in_history(k, m.target, m.head) ==> f is TargetNotAncestor || f is Git,
        f is TargetNotAncestor || f is PathNotFound || f is Empty || f is FileModified || f is Git
            || f is MergeInRange || f is BaseNotAncestor,
{
    match recipe::placed_in(k, m) {
        AskV::Need(_) => {},
        AskV::Fail(_) => {},
        AskV::Have((Some(e), _)) => {
            lemma_strip_refused(k, m, e, f);
        },
        AskV::Have((None, base)) => {
            let r = AskV::<PlanV>::Fail(f);
            let i = store::commit_in(k, m.target)->Have_0;
            assert(has_file(k, m.target, m.path, i, None));
            if exists|after: StackV| #[trigger]
                git::is_linear(k, Some(m.target), m.head, after) && match recipe::introduced_in(
                    k,
                    m.path,
                    after.rows,
                    0,
                ) {
                    AskV::Have(None) => r == AskV::<PlanV>::Fail(
                        ErrorV::PathNotFound { path: m.path },
                    ),
                    AskV::Have(Some(e)) => recipe::digs(k, m, base, e, r),
                    _ => false,
                } {
                let after = choose|after: StackV| #[trigger]
                    git::is_linear(k, Some(m.target), m.head, after) && match recipe::introduced_in(
                        k,
                        m.path,
                        after.rows,
                        0,
                    ) {
                        AskV::Have(None) => r == AskV::<PlanV>::Fail(
                            ErrorV::PathNotFound { path: m.path },
                        ),
                        AskV::Have(Some(e)) => recipe::digs(k, m, base, e, r),
                        _ => false,
                    };
                match recipe::introduced_in(k, m.path, after.rows, 0)->Have_0 {
                    None => {
                        lemma_introduced_nowhere(k, m.path, after.rows, 0);
                        assert(git::is_linear(k, Some(m.target), m.head, after));
                    },
                    Some(e) => {
                        lemma_dig_refused(k, m, base, e, f);
                    },
                }
            }
        },
    }
}

/// The place in a recipe of the edits of the fold at `x`: each takes one edit, and one
/// more where it is taken out of a commit.
pub open spec fn edits_before(folds: Seq<FoldV>, x: int) -> int
    decreases x,
{
    if x <= 0 {
        0
    } else {
        edits_before(folds, x - 1) + if folds[x - 1].revert is Some {
            2int
        } else {
            1int
        }
    }
}

/// The fold at `x` is carried by a commit that changes its path alone, and that change is
/// applied at its target; where it is taken out of a commit, the same is reverted there.
pub open spec fn folded_at(k: Known, source: Oid, folds: Seq<FoldV>, x: int, r: RecipeV) -> bool {
    let f = folds[x];
    let n = edits_before(folds, x);
    let carrier = patch::synthetic_in(k, source, f.path, f.text, f.mode);
    &&& carrier is Have
    &&& 0 <= n < r.edits.len()
    &&& r.edits[n] == (f.target, EditV::ApplyChange(carrier->Have_0))
    &&& f.revert matches Some(o) ==> n + 1 < r.edits.len() && r.edits[n + 1] == (
        o,
        EditV::RevertChange(carrier->Have_0),
    )
}

proof fn lemma_edits_before(folds: Seq<FoldV>, x: int)
    requires
        0 <= x,
    ensures
        edits_before(folds, x) >= x,
    decreases x,
{
    if x > 0 {
        lemma_edits_before(folds, x - 1);
    }
}

proof fn lemma_folded(k: Known, source: Oid, folds: Seq<FoldV>, i: int, r: RecipeV)
    requires
        0 <= i <= folds.len(),
        r.messages.len() == 0,
        r.edits.len() == edits_before(folds, i),
        forall|x: int| 0 <= x < i ==> #[trigger] folded_at(k, source, folds, x, r),
    ensures
        absorb::folded_in(k, source, folds, i, r) matches AskV::Have(end) ==> {
            &&& end.messages.len() == 0
            &&& end.edits.len() == edits_before(folds, folds.len() as int)
            &&& forall|x: int|
                0 <= x < folds.len() ==> #[trigger] folded_at(k, source, folds, x, end)
        },
    decreases folds.len() - i,
{
    if i < folds.len() {
        let f = folds[i];
        if let AskV::Have(c) = patch::synthetic_in(k, source, f.path, f.text, f.mode) {
            let next = absorb::with_fold(r, f, c);
            lemma_edits_before(folds, i);
            let n = edits_before(folds, i);
            assert(next.edits[n] == (f.target, EditV::ApplyChange(c)));
            assert(edits_before(folds, i + 1) == next.edits.len());
            assert forall|x: int| 0 <= x < i + 1 implies #[trigger] folded_at(
                k,
                source,
                folds,
                x,
                next,
            ) by {
                if x < i {
                    assert(folded_at(k, source, folds, x, r));
                }
            }
            lemma_folded(k, source, folds, i + 1, next);
        }
    }
}

/// The recipe of a routing: every fold is carried by a commit of its own, and applied at
/// its target; what is taken out of a commit is reverted there, after that. The folds come
/// in their order, there are no other edits, and no message changes.
pub proof fn a_recipe_carries_every_fold(k: Known, source: Oid, folds: Seq<FoldV>)
    ensures
        absorb::folded_in(k, source, folds, 0, RecipeV::empty()) matches AskV::Have(r) ==> {
            &&& r.messages.len() == 0
            &&& r.edits.len() == edits_before(folds, folds.len() as int)
            &&& forall|x: int| 0 <= x < folds.len() ==> #[trigger] folded_at(k, source, folds, x, r)
        },
{
    lemma_folded(k, source, folds, 0, RecipeV::empty());
}

/// The map of a replay tells where a commit went: its last entry for that commit counts.
pub proof fn the_last_entry_of_a_map_counts(map: Seq<(Oid, Oid)>, c: Oid)
    ensures
        match engine::image(map, c) {
            Some(n) => exists|x: int|
                {
                    &&& 0 <= x < map.len()
                    &&& #[trigger] map[x] == (c, n)
                    &&& forall|y: int| x < y < map.len() ==> (#[trigger] map[y]).0 != c
                },
            None => forall|y: int| 0 <= y < map.len() ==> (#[trigger] map[y]).0 != c,
        },
    decreases map.len(),
{
    if map.len() > 0 {
        let z = map.len() - 1;
        let front = map.drop_last();
        if map.last().0 == c {
            assert(map[z] == (c, map.last().1));
        } else {
            the_last_entry_of_a_map_counts(front, c);
            if let Some(n) = engine::image(front, c) {
                let x = choose|x: int|
                    {
                        &&& 0 <= x < front.len()
                        &&& #[trigger] front[x] == (c, n)
                        &&& forall|y: int| x < y < front.len() ==> (#[trigger] front[y]).0 != c
                    };
                assert(map[x] == (c, n));
                assert forall|y: int| x < y < map.len() implies (#[trigger] map[y]).0 != c by {
                    if y < z {
                        assert(front[y].0 != c);
                    }
                }
            } else {
                assert forall|y: int| 0 <= y < map.len() implies (#[trigger] map[y]).0 != c by {
                    if y < z {
                        assert(front[y].0 != c);
                    }
                }
            }
        }
    }
}

} // verus!
