//! The recipe-replay engine: one in-memory walk that rewrites a range of commits,
//! injecting per-commit edits. It writes only unreferenced objects and yields the
//! new tip. It never moves a ref, so a caller that promotes only on success gets
//! atomicity for free.

use crate::git::Merge;
use crate::oid::Oid;
use crate::store;
use crate::store::{
    Answer, AnswerV, Ask, AskV, Change, CommitInfo, CommitV, Entry, Known, Query, QueryV, Seen,
};
use crate::text;
use crate::{Error, ErrorV};
use vstd::prelude::*;

verus! {

/// The mode of a directory entry.
pub const DIR: i32 = 0o040000;

/// One edit injected at a commit during replay.
#[derive(Debug)]
pub enum Edit {
    /// Apply a synthetic commit's change (from its parent) by 3-way merge.
    ApplyChange(Oid),
    /// Apply the inverse of a synthetic commit's change.
    RevertChange(Oid),
    /// Set a path's blob directly (whole-file add or replace), with its mode.
    SetFile { path: String, blob: Oid, mode: i32 },
    /// Remove a path directly.
    RemoveFile { path: String },
}

/// An [`Edit`] by its contents.
#[verifier::ext_equal]
pub enum EditV {
    ApplyChange(Oid),
    RevertChange(Oid),
    SetFile { path: Seq<char>, blob: Oid, mode: i32 },
    RemoveFile { path: Seq<char> },
}

impl View for Edit {
    type V = EditV;

    open spec fn view(&self) -> EditV {
        match *self {
            Edit::ApplyChange(o) => EditV::ApplyChange(o),
            Edit::RevertChange(o) => EditV::RevertChange(o),
            Edit::SetFile { path, blob, mode } => EditV::SetFile { path: path@, blob, mode },
            Edit::RemoveFile { path } => EditV::RemoveFile { path: path@ },
        }
    }
}

/// Which edits to inject at which commit, in the order given, and which commits
/// get another message.
#[derive(Debug)]
pub struct Recipe {
    pub edits: Vec<(Oid, Edit)>,
    pub messages: Vec<(Oid, String)>,
}

/// A [`Recipe`] by its contents.
#[verifier::ext_equal]
pub struct RecipeV {
    pub edits: Seq<(Oid, EditV)>,
    pub messages: Seq<(Oid, Seq<char>)>,
}

impl View for Recipe {
    type V = RecipeV;

    open spec fn view(&self) -> RecipeV {
        RecipeV {
            edits: self.edits@.map_values(|e: (Oid, Edit)| (e.0, e.1@)),
            messages: self.messages@.map_values(|m: (Oid, String)| (m.0, m.1@)),
        }
    }
}

impl RecipeV {
    /// The recipe that changes nothing.
    pub open spec fn empty() -> RecipeV {
        RecipeV { edits: Seq::empty(), messages: Seq::empty() }
    }

    /// Does it edit `commit`?
    pub open spec fn touches(self, commit: Oid) -> bool {
        exists|i: int| 0 <= i < self.edits.len() && (#[trigger] self.edits[i]).0 == commit
    }

    /// The message given to `commit`: the latest one.
    pub open spec fn message_for(self, commit: Oid) -> Option<Seq<char>>
        decreases self.messages.len(),
    {
        if self.messages.len() == 0 {
            None
        } else if self.messages.last().0 == commit {
            Some(self.messages.last().1)
        } else {
            RecipeV { messages: self.messages.drop_last(), ..self }.message_for(commit)
        }
    }

    /// With one more edit.
    pub open spec fn add(self, commit: Oid, edit: EditV) -> RecipeV {
        RecipeV { edits: self.edits.push((commit, edit)), ..self }
    }

    /// With a message for `commit`.
    pub open spec fn set_message(self, commit: Oid, message: Seq<char>) -> RecipeV {
        RecipeV { messages: self.messages.push((commit, message)), ..self }
    }
}

impl Recipe {
    pub fn new() -> (r: Recipe)
        ensures
            r@ == RecipeV::empty(),
    {
        let r = Recipe { edits: Vec::new(), messages: Vec::new() };
        assert(r@ =~= RecipeV::empty());
        r
    }

    /// Inject `edit` when `commit` is replayed, after the edits it already has.
    pub fn add(&mut self, commit: Oid, edit: Edit)
        ensures
            final(self)@ == old(self)@.add(commit, edit@),
    {
        self.edits.push((commit, edit));
        assert(self@ =~= old(self)@.add(commit, edit@));
    }

    /// Give `commit` another message.
    pub fn set_message(&mut self, commit: Oid, message: String)
        ensures
            final(self)@ == old(self)@.set_message(commit, message@),
    {
        self.messages.push((commit, message));
        assert(self@ =~= old(self)@.set_message(commit, message@));
    }

    /// Are there no edits at all?
    pub fn is_empty(&self) -> (b: bool)
        ensures
            b == (self@.edits.len() == 0),
    {
        self.edits.len() == 0
    }

    /// Does it edit `commit`?
    pub fn touches(&self, commit: Oid) -> (b: bool)
        ensures
            b == self@.touches(commit),
    {
        let mut i: usize = 0;
        while i < self.edits.len()
            invariant
                0 <= i <= self.edits@.len(),
                forall|j: int| 0 <= j < i ==> (#[trigger] self@.edits[j]).0 != commit,
            decreases self.edits@.len() - i,
        {
            if self.edits[i].0 == commit {
                assert(self@.edits[i as int].0 == commit);
                return true;
            }
            i += 1;
        }
        false
    }

    /// The message given to `commit`, if any.
    fn message_for(&self, commit: Oid) -> (m: Option<String>)
        ensures
            crate::opt_text(m) == self@.message_for(commit),
    {
        let mut i: usize = self.messages.len();
        assert(self@.messages.take(i as int) =~= self@.messages);
        while i > 0
            invariant
                0 <= i <= self.messages@.len(),
                (RecipeV { messages: self@.messages.take(i as int), ..self@ }).message_for(commit)
                    == self@.message_for(commit),
            decreases i,
        {
            i -= 1;
            assert(self@.messages.take(i + 1).drop_last() =~= self@.messages.take(i as int));
            assert(self@.messages.take(i + 1).last() == self@.messages[i as int]);
            if self.messages[i].0 == commit {
                return Some(self.messages[i].1.clone());
            }
        }
        None
    }
}

// ── paths in trees ──────────────────────────────────────────────────────────

/// The names along a path: its maximal runs of characters other than `/`.
pub open spec fn components(path: Seq<char>) -> Seq<Seq<char>>
    decreases path.len(),
{
    if path.len() == 0 {
        Seq::empty()
    } else {
        let front = components(path.drop_last());
        if path.last() == '/' {
            front
        } else if path.len() >= 2 && path[path.len() - 2] != '/' {
            front.drop_last().push(front.last().push(path.last()))
        } else {
            front.push(seq![path.last()])
        }
    }
}

/// The names along a path.
pub fn split_path(path: &str) -> (v: Vec<String>)
    ensures
        text::texts(v@) == components(path@),
{
    let cs = text::chars_of(path);
    let mut v: Vec<String> = Vec::new();
    let mut cur = String::new();
    let mut i: usize = 0;
    while i < cs.len()
        invariant
            0 <= i <= cs@.len(),
            cs@ == path@,
            cur@.len() == 0 <==> (i == 0 || cs@[i - 1] == '/'),
            components(cs@.take(i as int)) == if cur@.len() == 0 {
                text::texts(v@)
            } else {
                text::texts(v@).push(cur@)
            },
        decreases cs@.len() - i,
    {
        let c = cs[i];
        let ghost before = text::texts(v@);
        proof {
            assert(cs@.take(i + 1).drop_last() =~= cs@.take(i as int));
            assert(cs@.take(i + 1).last() == c);
        }
        if c == '/' {
            if !cur.as_str().is_empty() {
                v.push(cur);
                cur = String::new();
                assert(text::texts(v@) =~= before.push(v@.last()@));
            }
        } else {
            let ghost was = cur@;
            cur.push(c);
            proof {
                if was.len() == 0 {
                    assert(cur@ =~= seq![c]);
                } else {
                    assert(before.push(was).drop_last() =~= before);
                }
            }
        }
        i += 1;
    }
    assert(cs@.take(i as int) =~= cs@);
    if !cur.as_str().is_empty() {
        let ghost before = text::texts(v@);
        v.push(cur);
        assert(text::texts(v@) =~= before.push(v@.last()@));
    }
    v
}

/// The tree with the path `names[i..]` set to `entry`, or taken out where `entry`
/// is none; with it, whether that tree has no entries. Directories that the
/// removal empties go too. A file is never replaced by a directory, nor a
/// directory by a file.
pub open spec fn updated_in(
    k: Known,
    tree: Option<Oid>,
    names: Seq<Seq<char>>,
    i: int,
    entry: Option<(Oid, i32)>,
) -> AskV<(Oid, bool)>
    recommends
        0 <= i < names.len(),
    decreases names.len() - i,
{
    let name = names[i];
    let put = |c: Change| store::tree_in(k, QueryV::Rebuild { tree, name, change: c });
    if i + 1 >= names.len() && entry is None {
        put(Change::Remove)
    } else {
        match store::entry_in(k, QueryV::Entry { tree, name }) {
            AskV::Need(q) => AskV::Need(q),
            AskV::Fail(e) => AskV::Fail(e),
            AskV::Have(there) => {
                if i + 1 >= names.len() {
                    match there {
                        Some(Entry { dir: true, .. }) => AskV::Fail(
                            ErrorV::Empty(
                                "path conflict: '"@ + name + "' is a directory, not a file"@,
                            ),
                        ),
                        _ => match entry {
                            Some((id, mode)) => put(Change::Put { id, mode }),
                            None => put(Change::Remove),
                        },
                    }
                } else {
                    match there {
                        Some(Entry { dir: false, .. }) => match entry {
                            None => put(Change::Keep),
                            Some(_) => AskV::Fail(
                                ErrorV::Empty(
                                    "path conflict: '"@ + name + "' is a file, not a directory"@,
                                ),
                            ),
                        },
                        _ => {
                            let sub = match there {
                                Some(e) => Some(e.id),
                                None => None,
                            };
                            match updated_in(k, sub, names, i + 1, entry) {
                                AskV::Need(q) => AskV::Need(q),
                                AskV::Fail(e) => AskV::Fail(e),
                                AskV::Have((id, empty)) => if entry is None && empty {
                                    put(Change::Remove)
                                } else {
                                    put(Change::Put { id, mode: DIR })
                                },
                            }
                        },
                    }
                }
            },
        }
    }
}

/// The tree with `path` set to `entry`, or taken out where `entry` is none.
pub open spec fn set_path_in(
    k: Known,
    tree: Oid,
    path: Seq<char>,
    entry: Option<(Oid, i32)>,
) -> AskV<Oid> {
    if components(path).len() == 0 {
        AskV::Fail(ErrorV::PathNotFound { path })
    } else {
        match updated_in(k, Some(tree), components(path), 0, entry) {
            AskV::Need(q) => AskV::Need(q),
            AskV::Fail(e) => AskV::Fail(e),
            AskV::Have((id, _)) => AskV::Have(id),
        }
    }
}

/// See [`updated_in`].
pub fn update(
    seen: &Seen,
    tree: Option<Oid>,
    names: &Vec<String>,
    i: usize,
    entry: Option<(Oid, i32)>,
) -> (r: Ask<(Oid, bool)>)
    requires
        i < names@.len(),
    ensures
        match r {
            Ask::Need(q) => updated_in(seen@, tree, text::texts(names@), i as int, entry)
                == AskV::<(Oid, bool)>::Need(q@),
            Ask::Fail(e) => updated_in(seen@, tree, text::texts(names@), i as int, entry)
                == AskV::<(Oid, bool)>::Fail(e@),
            Ask::Have(v) => updated_in(seen@, tree, text::texts(names@), i as int, entry)
                == AskV::Have(v),
        },
    decreases names@.len() - i,
{
    let name = names[i].clone();
    let last = i >= names.len() - 1;
    if last && entry.is_none() {
        return seen.tree(Query::Rebuild { tree, name, change: Change::Remove });
    }
    let there = match seen.entry(Query::Entry { tree, name: name.clone() }) {
        Ask::Need(q) => return Ask::Need(q),
        Ask::Fail(e) => return Ask::Fail(e),
        Ask::Have(there) => there,
    };
    if last {
        if let Some(Entry { dir: true, .. }) = there {
            return Ask::Fail(
                Error::Empty(
                    "path conflict: '".to_owned().concat(&name).concat(
                        "' is a directory, not a file",
                    ),
                ),
            );
        }
        return match entry {
            Some((id, mode)) => seen.tree(
                Query::Rebuild { tree, name, change: Change::Put { id, mode } },
            ),
            None => seen.tree(Query::Rebuild { tree, name, change: Change::Remove }),
        };
    }
    if let Some(Entry { dir: false, .. }) = there {
        return if entry.is_none() {
            // Nothing to remove beneath a file.
            seen.tree(Query::Rebuild { tree, name, change: Change::Keep })
        } else {
            Ask::Fail(
                Error::Empty(
                    "path conflict: '".to_owned().concat(&name).concat(
                        "' is a file, not a directory",
                    ),
                ),
            )
        };
    }
    let sub = match there {
        Some(e) => Some(e.id),
        None => None,
    };
    match update(seen, sub, names, i + 1, entry) {
        Ask::Need(q) => Ask::Need(q),
        Ask::Fail(e) => Ask::Fail(e),
        Ask::Have((id, empty)) => {
            if entry.is_none() && empty {
                seen.tree(Query::Rebuild { tree, name, change: Change::Remove })
            } else {
                seen.tree(Query::Rebuild { tree, name, change: Change::Put { id, mode: DIR } })
            }
        },
    }
}

/// Set (blob and mode) or remove a possibly nested path in a tree, giving the
/// new tree.
pub fn set_path(seen: &Seen, tree: Oid, path: &str, entry: Option<(Oid, i32)>) -> (r: Ask<Oid>)
    ensures
        r@ == set_path_in(seen@, tree, path@, entry),
{
    let names = split_path(path);
    if names.len() == 0 {
        return Ask::Fail(Error::PathNotFound { path: path.to_owned() });
    }
    match update(seen, Some(tree), &names, 0, entry) {
        Ask::Need(q) => Ask::Need(q),
        Ask::Fail(e) => Ask::Fail(e),
        Ask::Have((id, _)) => Ask::Have(id),
    }
}

// ── replaying one commit ────────────────────────────────────────────────────

/// The tree that `c`'s own change starts from: its parent's, or the empty one.
pub open spec fn base_tree_in(k: Known, c: CommitV) -> AskV<Oid> {
    if c.parents.len() == 0 {
        store::object_in(k, QueryV::EmptyTree)
    } else {
        match store::commit_in(k, c.parents[0]) {
            AskV::Need(q) => AskV::Need(q),
            AskV::Fail(e) => AskV::Fail(e),
            AskV::Have(p) => AskV::Have(p.tree),
        }
    }
}

/// See [`base_tree_in`].
fn base_tree(seen: &Seen, c: &CommitInfo) -> (r: Ask<Oid>)
    ensures
        r@ == base_tree_in(seen@, c@),
{
    if c.parents.len() == 0 {
        seen.object(Query::EmptyTree)
    } else {
        match seen.commit(c.parents[0]) {
            Ask::Need(q) => Ask::Need(q),
            Ask::Fail(e) => Ask::Fail(e),
            Ask::Have(p) => Ask::Have(p.tree),
        }
    }
}

/// Where the two trees of a synthetic change stand: before it, and after it. A
/// commit without a parent carries no change.
pub open spec fn change_in(k: Known, synth: Oid) -> AskV<(Oid, Oid)> {
    match store::commit_in(k, synth) {
        AskV::Need(q) => AskV::Need(q),
        AskV::Fail(e) => AskV::Fail(e),
        AskV::Have(s) => if s.parents.len() == 0 {
            AskV::Fail(ErrorV::Git("the change has no parent commit"@))
        } else {
            match store::commit_in(k, s.parents[0]) {
                AskV::Need(q) => AskV::Need(q),
                AskV::Fail(e) => AskV::Fail(e),
                AskV::Have(p) => AskV::Have((p.tree, s.tree)),
            }
        },
    }
}

/// See [`change_in`].
fn change(seen: &Seen, synth: Oid) -> (r: Ask<(Oid, Oid)>)
    ensures
        match r {
            Ask::Need(q) => change_in(seen@, synth) == AskV::<(Oid, Oid)>::Need(q@),
            Ask::Fail(e) => change_in(seen@, synth) == AskV::<(Oid, Oid)>::Fail(e@),
            Ask::Have(v) => change_in(seen@, synth) == AskV::Have(v),
        },
{
    match seen.commit(synth) {
        Ask::Need(q) => Ask::Need(q),
        Ask::Fail(e) => Ask::Fail(e),
        Ask::Have(s) => {
            if s.parents.len() == 0 {
                return Ask::Fail(Error::Git("the change has no parent commit".to_owned()));
            }
            match seen.commit(s.parents[0]) {
                Ask::Need(q) => Ask::Need(q),
                Ask::Fail(e) => Ask::Fail(e),
                Ask::Have(p) => Ask::Have((p.tree, s.tree)),
            }
        },
    }
}

/// `tree` with one edit made at the commit `at`. Reverting a change merges it
/// backwards: base and theirs trade places.
pub open spec fn edited_in(k: Known, tree: Oid, edit: EditV, at: Oid, how: Merge) -> AskV<Oid> {
    match edit {
        EditV::ApplyChange(synth) => match change_in(k, synth) {
            AskV::Need(q) => AskV::Need(q),
            AskV::Fail(e) => AskV::Fail(e),
            AskV::Have((from, to)) => store::merged_in(k, from, tree, to, how, at),
        },
        EditV::RevertChange(synth) => match change_in(k, synth) {
            AskV::Need(q) => AskV::Need(q),
            AskV::Fail(e) => AskV::Fail(e),
            AskV::Have((from, to)) => store::merged_in(k, to, tree, from, how, at),
        },
        EditV::SetFile { path, blob, mode } => set_path_in(k, tree, path, Some((blob, mode))),
        EditV::RemoveFile { path } => set_path_in(k, tree, path, None),
    }
}

/// See [`edited_in`].
pub fn apply_edit(seen: &Seen, tree: Oid, edit: &Edit, at: Oid, how: Merge) -> (r: Ask<Oid>)
    ensures
        r@ == edited_in(seen@, tree, edit@, at, how),
{
    match edit {
        Edit::ApplyChange(synth) => match change(seen, *synth) {
            Ask::Need(q) => Ask::Need(q),
            Ask::Fail(e) => Ask::Fail(e),
            Ask::Have((from, to)) => seen.merged(from, tree, to, how, at),
        },
        Edit::RevertChange(synth) => match change(seen, *synth) {
            Ask::Need(q) => Ask::Need(q),
            Ask::Fail(e) => Ask::Fail(e),
            Ask::Have((from, to)) => seen.merged(to, tree, from, how, at),
        },
        Edit::SetFile { path, blob, mode } => set_path(seen, tree, path, Some((*blob, *mode))),
        Edit::RemoveFile { path } => set_path(seen, tree, path, None),
    }
}

/// `tree` with the edits of `edits[j..]` that are meant for `at`, one after
/// another.
pub open spec fn all_edited_in(
    k: Known,
    tree: Oid,
    edits: Seq<(Oid, EditV)>,
    j: int,
    at: Oid,
    how: Merge,
) -> AskV<Oid>
    decreases edits.len() - j,
{
    if j >= edits.len() || j < 0 {
        AskV::Have(tree)
    } else if edits[j].0 != at {
        all_edited_in(k, tree, edits, j + 1, at, how)
    } else {
        match edited_in(k, tree, edits[j].1, at, how) {
            AskV::Need(q) => AskV::Need(q),
            AskV::Fail(e) => AskV::Fail(e),
            AskV::Have(t) => all_edited_in(k, t, edits, j + 1, at, how),
        }
    }
}

/// A commit merged onto the rewritten stack, before its edits: the tree, whether
/// the commit is one that changes nothing, and whether it is signed.
#[derive(Clone, Copy, PartialEq, Eq, Structural, Debug)]
pub struct Picked {
    pub tree: Oid,
    pub hollow: bool,
    pub signed: bool,
}

impl View for Picked {
    type V = Picked;

    open spec fn view(&self) -> Picked {
        *self
    }
}

/// The commit `c`, applied onto the tree `onto` by merging it against its own
/// original parent.
pub open spec fn picked_in(k: Known, c: Oid, onto: Oid, how: Merge) -> AskV<Picked> {
    match store::commit_in(k, c) {
        AskV::Need(q) => AskV::Need(q),
        AskV::Fail(e) => AskV::Fail(e),
        AskV::Have(i) => match base_tree_in(k, i) {
            AskV::Need(q) => AskV::Need(q),
            AskV::Fail(e) => AskV::Fail(e),
            AskV::Have(base) => match store::merged_in(k, base, onto, i.tree, how, c) {
                AskV::Need(q) => AskV::Need(q),
                AskV::Fail(e) => AskV::Fail(e),
                AskV::Have(tree) => AskV::Have(
                    Picked { tree, hollow: i.tree == base, signed: i.signed },
                ),
            },
        },
    }
}

/// See [`picked_in`].
pub fn pick(seen: &Seen, c: Oid, onto: Oid, how: Merge) -> (r: Ask<Picked>)
    ensures
        r@ == picked_in(seen@, c, onto, how),
{
    match seen.commit(c) {
        Ask::Need(q) => Ask::Need(q),
        Ask::Fail(e) => Ask::Fail(e),
        Ask::Have(i) => match base_tree(seen, i) {
            Ask::Need(q) => Ask::Need(q),
            Ask::Fail(e) => Ask::Fail(e),
            Ask::Have(base) => match seen.merged(base, onto, i.tree, how, c) {
                Ask::Need(q) => Ask::Need(q),
                Ask::Fail(e) => Ask::Fail(e),
                Ask::Have(tree) => Ask::Have(
                    Picked { tree, hollow: i.tree == base, signed: i.signed },
                ),
            },
        },
    }
}

// ── replaying a list of commits ─────────────────────────────────────────────

/// Where each rewritten commit went, in the order it was found out; the latest
/// entry for a commit counts.
pub open spec fn image(map: Seq<(Oid, Oid)>, c: Oid) -> Option<Oid>
    decreases map.len(),
{
    if map.len() == 0 {
        None
    } else if map.last().0 == c {
        Some(map.last().1)
    } else {
        image(map.drop_last(), c)
    }
}

/// See [`image`].
pub fn image_of(map: &Vec<(Oid, Oid)>, c: Oid) -> (r: Option<Oid>)
    ensures
        r == image(map@, c),
{
    let mut i: usize = map.len();
    assert(map@.take(i as int) =~= map@);
    while i > 0
        invariant
            0 <= i <= map@.len(),
            image(map@.take(i as int), c) == image(map@, c),
        decreases i,
    {
        i -= 1;
        assert(map@.take(i + 1).drop_last() =~= map@.take(i as int));
        if map[i].0 == c {
            return Some(map[i].1);
        }
    }
    None
}

/// A copy of the map.
pub fn copy_map(map: &Vec<(Oid, Oid)>) -> (r: Vec<(Oid, Oid)>)
    ensures
        r@ == map@,
{
    let mut r: Vec<(Oid, Oid)> = Vec::new();
    let mut i: usize = 0;
    while i < map.len()
        invariant
            0 <= i <= map@.len(),
            r@ == map@.take(i as int),
        decreases map@.len() - i,
    {
        r.push(map[i]);
        i += 1;
        assert(map@.take(i as int) =~= map@.take(i - 1).push(map@[i - 1]));
    }
    assert(map@.take(i as int) =~= map@);
    r
}

/// How far a replay has come.
#[derive(Debug)]
pub struct Walked {
    /// The rewritten commit that the next one goes onto.
    pub parent: Option<Oid>,
    /// Its tree.
    pub tree: Oid,
    /// Where each commit went.
    pub map: Vec<(Oid, Oid)>,
    /// Commits left out because they became empty.
    pub dropped: Vec<Oid>,
    /// Signed commits that were written again, and so lost their signature.
    pub unsigned: Vec<Oid>,
}

/// A [`Walked`] by its contents.
#[verifier::ext_equal]
pub struct WalkedV {
    pub parent: Option<Oid>,
    pub tree: Oid,
    pub map: Seq<(Oid, Oid)>,
    pub dropped: Seq<Oid>,
    pub unsigned: Seq<Oid>,
}

impl View for Walked {
    type V = WalkedV;

    open spec fn view(&self) -> WalkedV {
        WalkedV {
            parent: self.parent,
            tree: self.tree,
            map: self.map@,
            dropped: self.dropped@,
            unsigned: self.unsigned@,
        }
    }
}

/// Where the replay starts: at `base`, or at nothing.
pub open spec fn started_in(k: Known, base: Option<Oid>) -> AskV<WalkedV> {
    let at = |tree: Oid|
        WalkedV {
            parent: base,
            tree,
            map: Seq::empty(),
            dropped: Seq::empty(),
            unsigned: Seq::empty(),
        };
    match base {
        Some(b) => match store::commit_in(k, b) {
            AskV::Need(q) => AskV::Need(q),
            AskV::Fail(e) => AskV::Fail(e),
            AskV::Have(i) => AskV::Have(at(i.tree)),
        },
        None => match store::object_in(k, QueryV::EmptyTree) {
            AskV::Need(q) => AskV::Need(q),
            AskV::Fail(e) => AskV::Fail(e),
            AskV::Have(t) => AskV::Have(at(t)),
        },
    }
}

/// See [`started_in`].
fn start(seen: &Seen, base: Option<Oid>) -> (r: Ask<Walked>)
    ensures
        r@ == started_in(seen@, base),
{
    let tree = match base {
        Some(b) => match seen.commit(b) {
            Ask::Need(q) => return Ask::Need(q),
            Ask::Fail(e) => return Ask::Fail(e),
            Ask::Have(i) => i.tree,
        },
        None => match seen.object(Query::EmptyTree) {
            Ask::Need(q) => return Ask::Need(q),
            Ask::Fail(e) => return Ask::Fail(e),
            Ask::Have(t) => t,
        },
    };
    let w = Walked {
        parent: base,
        tree,
        map: Vec::new(),
        dropped: Vec::new(),
        unsigned: Vec::new(),
    };
    assert(w@ =~= (WalkedV {
        parent: base,
        tree,
        map: Seq::empty(),
        dropped: Seq::empty(),
        unsigned: Seq::empty(),
    }));
    Ask::Have(w)
}

/// Is a commit with the final tree `tree` left out? Only one that became empty:
/// it adds nothing to its rewritten parent, though it did change something.
pub open spec fn vanishes(p: Picked, tree: Oid, w: WalkedV, drop_empty: bool) -> bool {
    drop_empty && tree == w.tree && !p.hollow
}

/// A commit left out: refs on it belong on its rewritten parent.
pub open spec fn left_out(c: Oid, w: WalkedV) -> WalkedV {
    WalkedV {
        map: match w.parent {
            Some(p) => w.map.push((c, p)),
            None => w.map,
        },
        dropped: w.dropped.push(c),
        ..w
    }
}

/// A commit written again as `new`, with the tree `tree`.
pub open spec fn written(c: Oid, new: Oid, tree: Oid, signed: bool, w: WalkedV) -> WalkedV {
    WalkedV {
        parent: Some(new),
        tree,
        map: w.map.push((c, new)),
        dropped: w.dropped,
        unsigned: if signed && new != c {
            w.unsigned.push(c)
        } else {
            w.unsigned
        },
    }
}

/// The commit `c` with its final tree, put onto the stack or left out.
pub open spec fn settled_in(
    k: Known,
    c: Oid,
    p: Picked,
    tree: Oid,
    message: Option<Seq<char>>,
    drop_empty: bool,
    w: WalkedV,
) -> AskV<WalkedV> {
    if vanishes(p, tree, w, drop_empty) {
        AskV::Have(left_out(c, w))
    } else {
        match store::object_in(k, QueryV::Recommit { orig: c, tree, parent: w.parent, message }) {
            AskV::Need(q) => AskV::Need(q),
            AskV::Fail(e) => AskV::Fail(e),
            AskV::Have(new) => AskV::Have(written(c, new, tree, p.signed, w)),
        }
    }
}

/// What a replay is to do.
#[verifier::ext_equal]
pub struct JobV {
    pub base: Option<Oid>,
    pub tip: Oid,
    /// The commits after `base` up to `tip`, oldest first.
    pub ids: Seq<Oid>,
    /// The commits to replay, oldest first.
    pub order: Seq<Oid>,
    pub recipe: RecipeV,
    pub how: Merge,
    pub drop_empty: bool,
}

/// From the edits at `order[i]` onwards: `edits[j..]` are still to be made.
pub open spec fn editing_in(k: Known, job: JobV, i: int, p: Picked, j: int, w: WalkedV) -> AskV<
    WalkedV,
>
    decreases job.order.len() - i, 0int,
{
    if i < 0 || i >= job.order.len() {
        AskV::Have(w)
    } else {
        let c = job.order[i];
        match all_edited_in(k, p.tree, job.recipe.edits, j, c, job.how) {
            AskV::Need(q) => AskV::Need(q),
            AskV::Fail(e) => AskV::Fail(e),
            AskV::Have(t) => match settled_in(
                k,
                c,
                p,
                t,
                job.recipe.message_for(c),
                job.drop_empty,
                w,
            ) {
                AskV::Need(q) => AskV::Need(q),
                AskV::Fail(e) => AskV::Fail(e),
                AskV::Have(next) => replayed_in(k, job, i + 1, next),
            },
        }
    }
}

/// The commits `order[i..]`, replayed one after another onto where `w` stands:
/// each merged against its own original parent, then edited, then written again.
pub open spec fn replayed_in(k: Known, job: JobV, i: int, w: WalkedV) -> AskV<WalkedV>
    decreases job.order.len() - i, 1int,
{
    if i < 0 || i >= job.order.len() {
        AskV::Have(w)
    } else {
        match picked_in(k, job.order[i], w.tree, job.how) {
            AskV::Need(q) => AskV::Need(q),
            AskV::Fail(e) => AskV::Fail(e),
            AskV::Have(p) => editing_in(k, job, i, p, 0, w),
        }
    }
}

/// `map` with a place for every commit of `ids[i..]` that has none: a commit that
/// was not replayed goes where the commit before it went, `carry` to start with.
pub open spec fn carried(
    ids: Seq<Oid>,
    i: int,
    map: Seq<(Oid, Oid)>,
    carry: Option<Oid>,
) -> Seq<(Oid, Oid)>
    decreases ids.len() - i,
{
    if i < 0 || i >= ids.len() {
        map
    } else {
        match (image(map, ids[i]), carry) {
            (Some(n), _) => carried(ids, i + 1, map, Some(n)),
            (None, Some(c)) => carried(ids, i + 1, map.push((ids[i], c)), carry),
            (None, None) => carried(ids, i + 1, map, None),
        }
    }
}

/// What a replay produced. No ref has moved.
#[derive(Debug)]
pub struct Replay {
    /// The rewritten tip.
    pub tip: Oid,
    /// Where each commit of the range went.
    pub map: Vec<(Oid, Oid)>,
    /// Commits left out because they became empty.
    pub dropped: Vec<Oid>,
    /// Signed commits that were written again, and so lost their signature.
    pub unsigned: Vec<Oid>,
}

/// A [`Replay`] by its contents.
#[verifier::ext_equal]
pub struct ReplayV {
    pub tip: Oid,
    pub map: Seq<(Oid, Oid)>,
    pub dropped: Seq<Oid>,
    pub unsigned: Seq<Oid>,
}

impl View for Replay {
    type V = ReplayV;

    open spec fn view(&self) -> ReplayV {
        ReplayV {
            tip: self.tip,
            map: self.map@,
            dropped: self.dropped@,
            unsigned: self.unsigned@,
        }
    }
}

/// The result of a replay that came to its end.
pub open spec fn concluded(job: JobV, w: WalkedV) -> ReplayV {
    ReplayV {
        tip: match w.parent {
            Some(p) => p,
            None => job.tip,
        },
        map: carried(job.ids, 0, w.map, job.base),
        dropped: w.dropped,
        unsigned: w.unsigned,
    }
}

/// The end of a replay, where it comes to one.
pub open spec fn ended(job: JobV, a: AskV<WalkedV>) -> AskV<ReplayV> {
    match a {
        AskV::Need(q) => AskV::Need(q),
        AskV::Fail(e) => AskV::Fail(e),
        AskV::Have(w) => AskV::Have(concluded(job, w)),
    }
}

/// The whole replay of `job`.
pub open spec fn replay_in(k: Known, job: JobV) -> AskV<ReplayV> {
    match started_in(k, job.base) {
        AskV::Need(q) => AskV::Need(q),
        AskV::Fail(e) => AskV::Fail(e),
        AskV::Have(w) => ended(job, replayed_in(k, job, 0, w)),
    }
}

// ── what more answers change ────────────────────────────────────────────────

/// A standing `a`, and what becomes of it once more is known: it stays as it is,
/// unless it was waiting for an answer that is known now.
pub open spec fn steady<T>(k: Known, a: AskV<T>, now: AskV<T>) -> bool {
    a == now || (a matches AskV::Need(q) && k.contains_key(q))
}

proof fn lemma_updated(
    k: Known,
    k2: Known,
    tree: Option<Oid>,
    names: Seq<Seq<char>>,
    i: int,
    entry: Option<(Oid, i32)>,
)
    requires
        k.submap_of(k2),
    ensures
        steady(k2, updated_in(k, tree, names, i, entry), updated_in(k2, tree, names, i, entry)),
        updated_in(k, tree, names, i, entry) matches AskV::Need(q) ==> !k.contains_key(q),
    decreases names.len() - i,
{
    if i + 1 < names.len() {
        let q = QueryV::Entry { tree, name: names[i] };
        if store::entry_in(k, q) is Have {
            let there = store::entry_in(k, q)->Have_0;
            let sub = match there {
                Some(e) => Some(e.id),
                None => None,
            };
            lemma_updated(k, k2, sub, names, i + 1, entry);
        }
    }
}

pub proof fn lemma_set_path(
    k: Known,
    k2: Known,
    tree: Oid,
    path: Seq<char>,
    entry: Option<(Oid, i32)>,
)
    requires
        k.submap_of(k2),
    ensures
        steady(k2, set_path_in(k, tree, path, entry), set_path_in(k2, tree, path, entry)),
        set_path_in(k, tree, path, entry) matches AskV::Need(q) ==> !k.contains_key(q),
{
    lemma_updated(k, k2, Some(tree), components(path), 0, entry);
}

pub proof fn lemma_edited(k: Known, k2: Known, tree: Oid, edit: EditV, at: Oid, how: Merge)
    requires
        k.submap_of(k2),
    ensures
        steady(k2, edited_in(k, tree, edit, at, how), edited_in(k2, tree, edit, at, how)),
        edited_in(k, tree, edit, at, how) matches AskV::Need(q) ==> !k.contains_key(q),
{
    match edit {
        EditV::SetFile { path, blob, mode } => lemma_set_path(
            k,
            k2,
            tree,
            path,
            Some((blob, mode)),
        ),
        EditV::RemoveFile { path } => lemma_set_path(k, k2, tree, path, None),
        _ => {},
    }
}

proof fn lemma_picked(k: Known, k2: Known, c: Oid, onto: Oid, how: Merge)
    requires
        k.submap_of(k2),
    ensures
        steady(k2, picked_in(k, c, onto, how), picked_in(k2, c, onto, how)),
{
}

proof fn lemma_settled(
    k: Known,
    k2: Known,
    c: Oid,
    p: Picked,
    tree: Oid,
    message: Option<Seq<char>>,
    drop_empty: bool,
    w: WalkedV,
)
    requires
        k.submap_of(k2),
    ensures
        steady(
            k2,
            settled_in(k, c, p, tree, message, drop_empty, w),
            settled_in(k2, c, p, tree, message, drop_empty, w),
        ),
{
}

proof fn lemma_started(k: Known, k2: Known, base: Option<Oid>)
    requires
        k.submap_of(k2),
    ensures
        steady(k2, started_in(k, base), started_in(k2, base)),
{
}

// ── the replay as a conversation ────────────────────────────────────────────

/// A replay in progress. [`Replaying::next`] says what it needs to hear, until it
/// has its result.
#[derive(Debug)]
pub struct Replaying {
    base: Option<Oid>,
    tip: Oid,
    ids: Vec<Oid>,
    order: Vec<Oid>,
    recipe: Recipe,
    how: Merge,
    drop_empty: bool,
    seen: Seen,
    started: bool,
    walked: Walked,
    at: usize,
    picked: Option<(Picked, usize)>,
}

impl Replaying {
    /// What it is to do.
    pub closed spec fn job(&self) -> JobV {
        JobV {
            base: self.base,
            tip: self.tip,
            ids: self.ids@,
            order: self.order@,
            recipe: self.recipe@,
            how: self.how,
            drop_empty: self.drop_empty,
        }
    }

    /// The answers of the object store that it still works from.
    pub closed spec fn heard(&self) -> Known {
        self.seen@
    }

    /// How far it has come: the start and the commits it is through with, then the
    /// merge and the edits at the present one.
    pub closed spec fn came(&self) -> (nat, nat) {
        if !self.started {
            (0, 0)
        } else {
            (
                1 + self.at as nat,
                match self.picked {
                    None => 0,
                    Some((_, j)) => 1 + j as nat,
                },
            )
        }
    }

    /// Where it comes out, if `k` is what the object store answers.
    pub closed spec fn outcome(&self, k: Known) -> AskV<ReplayV> {
        if !self.started {
            replay_in(k, self.job())
        } else {
            match self.picked {
                None => ended(self.job(), replayed_in(k, self.job(), self.at as int, self.walked@)),
                Some((p, j)) => ended(
                    self.job(),
                    editing_in(k, self.job(), self.at as int, p, j as int, self.walked@),
                ),
            }
        }
    }

    pub closed spec fn wf(&self) -> bool {
        &&& self.at <= self.order@.len()
        &&& self.picked matches Some((_, j)) ==> self.started && self.at < self.order@.len() && j
            <= self.recipe.edits@.len()
    }

    /// How much work is left: commits, then edits at the present one.
    spec fn left(&self) -> (int, int, int) {
        (
            if self.started {
                0int
            } else {
                1
            },
            self.order@.len() - self.at,
            match self.picked {
                None => self.recipe.edits@.len() as int + 1,
                Some((_, j)) => self.recipe.edits@.len() - j,
            },
        )
    }

    /// Replay the commits `order`, oldest first, onto `base` (or onto nothing),
    /// injecting `recipe`. `ids` is the range that is being rewritten. With
    /// `drop_empty`, a commit whose change ended up elsewhere is left out.
    pub fn new(
        base: Option<Oid>,
        tip: Oid,
        ids: Vec<Oid>,
        order: Vec<Oid>,
        recipe: Recipe,
        how: Merge,
        drop_empty: bool,
    ) -> (r: Replaying)
        ensures
            r.wf(),
            r.heard() == Map::<QueryV, AnswerV>::empty(),
            r.came() == (0nat, 0nat),
            r.job() == (JobV {
                base,
                tip,
                ids: ids@,
                order: order@,
                recipe: recipe@,
                how,
                drop_empty,
            }),
            forall|k: Known| #[trigger] r.outcome(k) == replay_in(k, r.job()),
    {
        Replaying {
            base,
            tip,
            ids,
            order,
            recipe,
            how,
            drop_empty,
            seen: Seen::new(),
            started: false,
            walked: Walked {
                parent: base,
                tree: Oid::zero(),
                map: Vec::new(),
                dropped: Vec::new(),
                unsigned: Vec::new(),
            },
            at: 0,
            picked: None,
        }
    }

    /// Hear an answer.
    pub fn answer(&mut self, q: Query, a: Answer)
        requires
            old(self).wf(),
        ensures
            final(self).wf(),
            final(self).job() == old(self).job(),
            final(self).came() == old(self).came(),
            final(self).heard() == old(self).heard().insert(q@, a@),
            forall|k: Known| #[trigger] final(self).outcome(k) == old(self).outcome(k),
    {
        self.seen.learn(q, a);
    }

    /// The map with a place for every commit of the range.
    fn conclude(&self) -> (r: Replay)
        ensures
            r@ == concluded(self.job(), self.walked@),
    {
        let mut map = copy_map(&self.walked.map);
        let mut carry = self.base;
        let mut i: usize = 0;
        while i < self.ids.len()
            invariant
                0 <= i <= self.ids@.len(),
                carried(self.ids@, i as int, map@, carry) == carried(
                    self.ids@,
                    0,
                    self.walked.map@,
                    self.base,
                ),
            decreases self.ids@.len() - i,
        {
            match image_of(&map, self.ids[i]) {
                Some(n) => {
                    carry = Some(n);
                },
                None => {
                    if let Some(c) = carry {
                        map.push((self.ids[i], c));
                    }
                },
            }
            i += 1;
        }
        let tip = match self.walked.parent {
            Some(p) => p,
            None => self.tip,
        };
        let dropped = self.walked.dropped.clone();
        let unsigned = self.walked.unsigned.clone();
        assert(dropped@ =~= self.walked.dropped@);
        assert(unsigned@ =~= self.walked.unsigned@);
        Replay { tip, map, dropped, unsigned }
    }

    /// One unit of work: the start, one commit's merge, one edit, or one commit's
    /// end. Gives the standing where no further work is possible.
    fn advance(&mut self) -> (r: Option<Ask<Replay>>)
        requires
            old(self).wf(),
        ensures
            final(self).wf(),
            final(self).job() == old(self).job(),
            r is None ==> {
                &&& store::further(old(self).came(), final(self).came())
                &&& decreases_to!(old(self).left().0, old(self).left().1, old(self).left().2
                    => final(self).left().0, final(self).left().1, final(self).left().2)
                &&& forall|k: Known|
                    old(self).heard().submap_of(k) ==> final(self).heard().submap_of(k)
                        && #[trigger] final(self).outcome(k) == old(self).outcome(k)
            },
            r matches Some(a) ==> {
                &&& final(self).came() == old(self).came()
                &&& final(self).heard() == old(self).heard()
                &&& forall|k: Known| #[trigger] final(self).outcome(k) == old(self).outcome(k)
                &&& a matches Ask::Need(q) ==> !old(self).heard().contains_key(q@)
                &&& forall|k: Known|
                    old(self).heard().submap_of(k) && (a matches Ask::Need(q) ==> !k.contains_key(
                        q@,
                    )) ==> #[trigger] old(self).outcome(k) == a@
            },
    {
        if !self.started {
            proof {
                assert forall|k: Known| self.seen@.submap_of(k) implies steady(
                    k,
                    started_in(self.seen@, self.base),
                    #[trigger] started_in(k, self.base),
                ) by {
                    lemma_started(self.seen@, k, self.base);
                }
            }
            match start(&self.seen, self.base) {
                Ask::Need(q) => {
                    return Some(Ask::Need(q));
                },
                Ask::Fail(e) => {
                    return Some(Ask::Fail(e));
                },
                Ask::Have(w) => {
                    self.walked = w;
                    self.started = true;
                    self.at = 0;
                    self.picked = None;
                    self.seen = Seen::new();
                    return None;
                },
            }
        }
        if self.at >= self.order.len() {
            return Some(Ask::Have(self.conclude()));
        }
        let c = self.order[self.at];
        match self.picked {
            None => {
                proof {
                    assert forall|k: Known| self.seen@.submap_of(k) implies steady(
                        k,
                        picked_in(self.seen@, c, self.walked@.tree, self.how),
                        #[trigger] picked_in(k, c, self.walked@.tree, self.how),
                    ) by {
                        lemma_picked(self.seen@, k, c, self.walked@.tree, self.how);
                    }
                }
                match pick(&self.seen, c, self.walked.tree, self.how) {
                    Ask::Need(q) => {
                        return Some(Ask::Need(q));
                    },
                    Ask::Fail(e) => {
                        return Some(Ask::Fail(e));
                    },
                    Ask::Have(p) => {
                        self.picked = Some((p, 0));
                        self.seen = Seen::new();
                        return None;
                    },
                }
            },
            Some((p, j)) => {
                if j < self.recipe.edits.len() {
                    self.edit(c, p, j)
                } else {
                    self.settle(c, p, j)
                }
            },
        }
    }

    /// Make the edit at `j`, where it is meant for `c`.
    fn edit(&mut self, c: Oid, p: Picked, j: usize) -> (r: Option<Ask<Replay>>)
        requires
            old(self).wf(),
            old(self).started,
            old(self).at < old(self).order@.len(),
            c == old(self).order@[old(self).at as int],
            old(self).picked == Some((p, j)),
            j < old(self).recipe.edits@.len(),
        ensures
            final(self).wf(),
            final(self).job() == old(self).job(),
            r is None ==> {
                &&& store::further(old(self).came(), final(self).came())
                &&& decreases_to!(old(self).left().0, old(self).left().1, old(self).left().2
                    => final(self).left().0, final(self).left().1, final(self).left().2)
                &&& forall|k: Known|
                    old(self).heard().submap_of(k) ==> final(self).heard().submap_of(k)
                        && #[trigger] final(self).outcome(k) == old(self).outcome(k)
            },
            r matches Some(a) ==> {
                &&& final(self).came() == old(self).came()
                &&& final(self).heard() == old(self).heard()
                &&& forall|k: Known| #[trigger] final(self).outcome(k) == old(self).outcome(k)
                &&& a matches Ask::Need(q) ==> !old(self).heard().contains_key(q@)
                &&& forall|k: Known|
                    old(self).heard().submap_of(k) && (a matches Ask::Need(q) ==> !k.contains_key(
                        q@,
                    )) ==> #[trigger] old(self).outcome(k) == a@
            },
    {
        let ghost edits = self.recipe@.edits;
        let n: usize = self.recipe.edits.len();
        assert(j < n);
        assert(edits[j as int] == (self.recipe.edits@[j as int].0, self.recipe.edits@[j as int].1@));
        if self.recipe.edits[j].0 != c {
            self.picked = Some((p, j + 1));
            return None;
        }
        let ghost edit = edits[j as int].1;
        proof {
            lemma_edited(self.seen@, self.seen@, p.tree, edit, c, self.how);
            assert forall|k: Known| self.seen@.submap_of(k) implies steady(
                k,
                edited_in(self.seen@, p.tree, edit, c, self.how),
                #[trigger] edited_in(k, p.tree, edit, c, self.how),
            ) by {
                lemma_edited(self.seen@, k, p.tree, edit, c, self.how);
            }
        }
        match apply_edit(&self.seen, p.tree, &self.recipe.edits[j].1, c, self.how) {
            Ask::Need(q) => Some(Ask::Need(q)),
            Ask::Fail(e) => Some(Ask::Fail(e)),
            Ask::Have(tree) => {
                self.picked = Some((Picked { tree, ..p }, j + 1));
                self.seen = Seen::new();
                None
            },
        }
    }

    /// Every edit is made: leave `c` out, or write it again.
    fn settle(&mut self, c: Oid, p: Picked, j: usize) -> (r: Option<Ask<Replay>>)
        requires
            old(self).wf(),
            old(self).started,
            old(self).at < old(self).order@.len(),
            c == old(self).order@[old(self).at as int],
            old(self).picked == Some((p, j)),
            j == old(self).recipe.edits@.len(),
        ensures
            final(self).wf(),
            final(self).job() == old(self).job(),
            r is None ==> {
                &&& store::further(old(self).came(), final(self).came())
                &&& decreases_to!(old(self).left().0, old(self).left().1, old(self).left().2
                    => final(self).left().0, final(self).left().1, final(self).left().2)
                &&& forall|k: Known|
                    old(self).heard().submap_of(k) ==> final(self).heard().submap_of(k)
                        && #[trigger] final(self).outcome(k) == old(self).outcome(k)
            },
            r matches Some(a) ==> {
                &&& final(self).came() == old(self).came()
                &&& final(self).heard() == old(self).heard()
                &&& forall|k: Known| #[trigger] final(self).outcome(k) == old(self).outcome(k)
                &&& a matches Ask::Need(q) ==> !old(self).heard().contains_key(q@)
                &&& forall|k: Known|
                    old(self).heard().submap_of(k) && (a matches Ask::Need(q) ==> !k.contains_key(
                        q@,
                    )) ==> #[trigger] old(self).outcome(k) == a@
            },
    {
        let ghost w = self.walked@;
        let n: usize = self.order.len();
        assert(self.at < n);
        if self.drop_empty && p.tree == self.walked.tree && !p.hollow {
            // Its change is there already. A ref on it belongs on its rewritten
            // parent, whose tree is the same.
            if let Some(parent) = self.walked.parent {
                self.walked.map.push((c, parent));
            }
            self.walked.dropped.push(c);
            assert(self.walked@ =~= left_out(c, w));
        } else {
            let message = self.recipe.message_for(c);
            let ghost msg = self.recipe@.message_for(c);
            proof {
                assert forall|k: Known| self.seen@.submap_of(k) implies steady(
                    k,
                    settled_in(self.seen@, c, p, p.tree, msg, self.drop_empty, w),
                    #[trigger] settled_in(k, c, p, p.tree, msg, self.drop_empty, w),
                ) by {
                    lemma_settled(self.seen@, k, c, p, p.tree, msg, self.drop_empty, w);
                }
            }
            let q = Query::Recommit { orig: c, tree: p.tree, parent: self.walked.parent, message };
            match self.seen.object(q) {
                Ask::Need(q) => {
                    return Some(Ask::Need(q));
                },
                Ask::Fail(e) => {
                    return Some(Ask::Fail(e));
                },
                Ask::Have(new) => {
                    self.walked.parent = Some(new);
                    self.walked.tree = p.tree;
                    self.walked.map.push((c, new));
                    if p.signed && new != c {
                        self.walked.unsigned.push(c);
                    }
                    assert(self.walked@ =~= written(c, new, p.tree, p.signed, w));
                },
            }
        }
        self.at += 1;
        self.picked = None;
        self.seen = Seen::new();
        None
    }

    /// Work on as far as the answers go, and say how it stands. The standing is
    /// the one that every object store with these answers gives: the next thing
    /// it needs to hear, the failure, or the result. It asks for nothing that it
    /// was told, and forgets an answer only once it has come further by it.
    pub fn next(&mut self) -> (r: Ask<Replay>)
        requires
            old(self).wf(),
        ensures
            final(self).wf(),
            final(self).job() == old(self).job(),
            final(self).came().0 <= 1 + final(self).job().order.len(),
            final(self).came().1 <= 1 + final(self).job().recipe.edits.len(),
            store::further(old(self).came(), final(self).came()) || (final(self).came()
                == old(self).came() && final(self).heard() == old(self).heard()),
            r matches Ask::Need(q) ==> !final(self).heard().contains_key(q@) && forall|k: Known|
                final(self).heard().submap_of(k) && !k.contains_key(q@) ==> #[trigger]
                final(self).outcome(k) == r@,
            forall|k: Known|
                old(self).heard().submap_of(k) ==> final(self).heard().submap_of(k)
                    && #[trigger] final(self).outcome(k) == old(self).outcome(k),
            forall|k: Known|
                old(self).heard().submap_of(k) && (r matches Ask::Need(q) ==> !k.contains_key(q@))
                    ==> #[trigger] old(self).outcome(k) == r@,
    {
        loop
            invariant
                self.wf(),
                self.job() == old(self).job(),
                store::further(old(self).came(), self.came()) || (self.came() == old(self).came()
                    && self.heard() == old(self).heard()),
                forall|k: Known|
                    #![trigger self.outcome(k)]
                    #![trigger old(self).outcome(k)]
                    old(self).heard().submap_of(k) ==> self.heard().submap_of(k) && self.outcome(k)
                        == old(self).outcome(k),
            decreases self.left().0, self.left().1, self.left().2,
        {
            if let Some(a) = self.advance() {
                return a;
            }
        }
    }
}

/// Replay the range `ids` as it stands, from `base` to `tip`, injecting `recipe`.
pub fn replay(base: Option<Oid>, tip: Oid, ids: Vec<Oid>, recipe: Recipe, how: Merge) -> (r:
    Replaying)
    ensures
        r.wf(),
        r.heard() == Map::<QueryV, AnswerV>::empty(),
        r.came() == (0nat, 0nat),
        r.job() == (JobV {
            base,
            tip,
            ids: ids@,
            order: ids@,
            recipe: recipe@,
            how,
            drop_empty: false,
        }),
        forall|k: Known| #[trigger] r.outcome(k) == replay_in(k, r.job()),
{
    replay_opts(base, tip, ids, recipe, how, false)
}

/// Like [`replay`], but `drop_empty` leaves out any rewritten commit whose tree ends up
/// identical to its (rewritten) parent's — so a commit whose whole change was absorbed
/// elsewhere does not linger as an empty commit.
pub fn replay_opts(
    base: Option<Oid>,
    tip: Oid,
    ids: Vec<Oid>,
    recipe: Recipe,
    how: Merge,
    drop_empty: bool,
) -> (r: Replaying)
    ensures
        r.wf(),
        r.heard() == Map::<QueryV, AnswerV>::empty(),
        r.came() == (0nat, 0nat),
        r.job() == (JobV {
            base,
            tip,
            ids: ids@,
            order: ids@,
            recipe: recipe@,
            how,
            drop_empty,
        }),
        forall|k: Known| #[trigger] r.outcome(k) == replay_in(k, r.job()),
{
    let order = ids.clone();
    assert(order@ =~= ids@);
    Replaying::new(base, tip, ids, order, recipe, how, drop_empty)
}

} // verus!
