//! Which commit a hunk belongs to.
//!
//! A hunk belongs to the newest commit that owns the lines it touches: folded
//! there, adjacency conflicts don't arise; folded earlier, they do. "Owns the
//! lines" is what blame says of the OLD lines that the hunk changes. A hunk whose
//! lines are all owned outside the window has no home.

use crate::oid::Oid;
use crate::patch;
use crate::patch::{Hunk, HunkV};
use vstd::prelude::*;

verus! {

/// The commit that blame names for the line; lines count from 1.
pub open spec fn owner(blame: Seq<Option<Oid>>, line: usize) -> Option<Oid> {
    if 1 <= line <= blame.len() {
        blame[line - 1]
    } else {
        None
    }
}

/// Does `c` own any of the lines?
pub open spec fn owns(blame: Seq<Option<Oid>>, lines: Seq<usize>, c: Oid) -> bool {
    exists|i: int| 0 <= i < lines.len() && owner(blame, #[trigger] lines[i]) == Some(c)
}

/// The newest commit of `window` (oldest first) that owns any of the lines.
pub open spec fn newest_owner(
    blame: Seq<Option<Oid>>,
    lines: Seq<usize>,
    window: Seq<Oid>,
) -> Option<Oid>
    decreases window.len(),
{
    if window.len() == 0 {
        None
    } else if owns(blame, lines, window.last()) {
        Some(window.last())
    } else {
        newest_owner(blame, lines, window.drop_last())
    }
}

/// The home of each hunk.
pub open spec fn homes(
    blame: Seq<Option<Oid>>,
    hunks: Seq<HunkV>,
    window: Seq<Oid>,
) -> Seq<Option<Oid>> {
    hunks.map_values(|h: HunkV| newest_owner(blame, patch::blamed(h), window))
}

fn owning(blame: &Vec<Option<Oid>>, lines: &Vec<usize>, c: Oid) -> (b: bool)
    ensures
        b == owns(blame@, lines@, c),
{
    let mut i: usize = 0;
    while i < lines.len()
        invariant
            0 <= i <= lines@.len(),
            forall|j: int| 0 <= j < i ==> owner(blame@, #[trigger] lines@[j]) != Some(c),
        decreases lines@.len() - i,
    {
        let line: usize = lines[i];
        if 1 <= line && line <= blame.len() {
            if let Some(o) = blame[line - 1] {
                if o == c {
                    assert(owner(blame@, lines@[i as int]) == Some(c));
                    return true;
                }
            }
        }
        i += 1;
    }
    false
}

fn home(blame: &Vec<Option<Oid>>, lines: &Vec<usize>, window: &Vec<Oid>) -> (r: Option<Oid>)
    ensures
        r == newest_owner(blame@, lines@, window@),
{
    let mut i: usize = window.len();
    assert(window@.take(i as int) =~= window@);
    while i > 0
        invariant
            0 <= i <= window@.len(),
            newest_owner(blame@, lines@, window@.take(i as int)) == newest_owner(
                blame@,
                lines@,
                window@,
            ),
        decreases i,
    {
        assert(window@.take(i as int).drop_last() =~= window@.take(i - 1));
        i -= 1;
        if owning(blame, lines, window[i]) {
            return Some(window[i]);
        }
    }
    None
}

/// For each hunk, the inferred target commit (none: no home in the window).
/// `blame` names the owner of each line of the old file; `window` is the stack's
/// commits, oldest first.
pub fn infer_targets(blame: &Vec<Option<Oid>>, hunks: &Vec<Hunk>, window: &Vec<Oid>) -> (v: Vec<
    Option<Oid>,
>)
    ensures
        v@ == homes(blame@, patch::views(hunks@), window@),
{
    let ghost all = homes(blame@, patch::views(hunks@), window@);
    let mut v: Vec<Option<Oid>> = Vec::new();
    let mut i: usize = 0;
    while i < hunks.len()
        invariant
            0 <= i <= hunks@.len(),
            all == homes(blame@, patch::views(hunks@), window@),
            v@ == all.take(i as int),
        decreases hunks@.len() - i,
    {
        let lines = hunks[i].blamed_lines();
        v.push(home(blame, &lines, window));
        i += 1;
        assert(all.take(i as int) =~= all.take(i - 1).push(all[i - 1]));
    }
    assert(all.take(i as int) =~= all);
    v
}

/// The target of a hunk is a commit of the window that owns one of the lines, and
/// no newer commit of the window owns any. There is no target exactly if no commit
/// of the window owns any of them.
pub proof fn the_target_is_the_newest_owner(
    blame: Seq<Option<Oid>>,
    lines: Seq<usize>,
    window: Seq<Oid>,
)
    ensures
        match newest_owner(blame, lines, window) {
            Some(t) => exists|i: int|
                0 <= i < window.len() && #[trigger] window[i] == t && owns(blame, lines, t)
                    && forall|j: int|
                    i < j < window.len() ==> !owns(blame, lines, #[trigger] window[j]),
            None => forall|i: int|
                0 <= i < window.len() ==> !owns(blame, lines, #[trigger] window[i]),
        },
    decreases window.len(),
{
    if window.len() > 0 {
        if owns(blame, lines, window.last()) {
            assert(window[window.len() - 1] == window.last());
        } else {
            let front = window.drop_last();
            the_target_is_the_newest_owner(blame, lines, front);
            assert forall|i: int| 0 <= i < front.len() implies front[i] == window[i] by {}
            match newest_owner(blame, lines, front) {
                Some(t) => {
                    let i = choose|i: int|
                        0 <= i < front.len() && #[trigger] front[i] == t && owns(blame, lines, t)
                            && forall|j: int|
                            i < j < front.len() ==> !owns(blame, lines, #[trigger] front[j]);
                    assert(window[i] == t);
                    assert forall|j: int| i < j < window.len() implies !owns(
                        blame,
                        lines,
                        #[trigger] window[j],
                    ) by {
                        if j < front.len() {
                            assert(!owns(blame, lines, front[j]));
                        }
                    }
                },
                None => {
                    assert forall|i: int| 0 <= i < window.len() implies !owns(
                        blame,
                        lines,
                        #[trigger] window[i],
                    ) by {
                        if i < front.len() {
                            assert(!owns(blame, lines, front[i]));
                        }
                    }
                },
            }
        }
    }
}

} // verus!
