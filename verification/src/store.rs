//! What the library asks of a repository's object store, and what it has been
//! told so far.
//!
//! Objects are content-addressed: the same question always has the same answer,
//! whether it reads an object or writes one. So a computation over objects is a
//! function of the answers known so far. It either has its result, or names the
//! one answer it needs next.

use crate::git::Merge;
use crate::oid::Oid;
use crate::text;
use crate::{Error, ErrorV};
use vstd::prelude::*;

verus! {

/// What one entry of a tree becomes.
#[derive(Clone, Copy, PartialEq, Eq, Structural, Debug)]
pub enum Change {
    /// Leave the tree as it is.
    Keep,
    /// Set the entry.
    Put { id: Oid, mode: i32 },
    /// Take the entry out, if it is there.
    Remove,
}

/// An entry of a tree.
#[derive(Clone, Copy, PartialEq, Eq, Structural, Debug)]
pub struct Entry {
    pub id: Oid,
    pub mode: i32,
    pub dir: bool,
}

/// What the library reads of a commit.
#[derive(Debug)]
pub struct CommitInfo {
    pub tree: Oid,
    pub parents: Vec<Oid>,
    pub message: String,
    /// The first line of the message, where it can be read.
    pub summary: Option<String>,
    pub signed: bool,
}

/// The paths of one conflicting entry, for the sides that have it.
#[derive(Debug)]
pub struct Sides {
    pub our: Option<Vec<u8>>,
    pub their: Option<Vec<u8>>,
    pub ancestor: Option<Vec<u8>>,
}

/// A question to the object store.
#[allow(inconsistent_fields)]
#[derive(Debug)]
pub enum Query {
    /// Read a commit.
    Commit(Oid),
    /// The tree with no entries.
    EmptyTree,
    /// Apply the change from `base` to `theirs` onto `ours`.
    Merge { base: Oid, ours: Oid, theirs: Oid, how: Merge },
    /// The entry `name` of a tree; no tree has no entries.
    Entry { tree: Option<Oid>, name: String },
    /// Write the tree with one entry changed; no tree starts empty.
    Rebuild { tree: Option<Oid>, name: String, change: Change },
    /// The entry at a path that may be nested.
    Path { tree: Oid, path: String },
    /// Write a blob with this text.
    Blob(String),
    /// Write `orig` again with another tree and parent, keeping author and
    /// committer; a message replaces the old one.
    Recommit { orig: Oid, tree: Oid, parent: Option<Oid>, message: Option<String> },
    /// Write a new commit. It has the author and committer of `like`, or the
    /// user's own.
    Create { tree: Oid, parent: Oid, message: String, like: Option<Oid> },
    /// Is the first commit an ancestor of the second?
    Reaches { ancestor: Oid, from: Oid },
}

/// An answer of the object store.
#[allow(inconsistent_fields)]
#[derive(Debug)]
pub enum Answer {
    /// It could not be done, for the reason given.
    Failed(String),
    Commit(CommitInfo),
    /// The id of what was found, merged or written.
    Object(Oid),
    /// The merge conflicted; the first conflicting entry, where it is known.
    Conflict(Option<Sides>),
    Entry(Option<Entry>),
    /// A tree that was written, and whether it has no entries.
    Tree { id: Oid, empty: bool },
    Truth(bool),
}

/// A [`CommitInfo`] by its contents.
#[verifier::ext_equal]
pub struct CommitV {
    pub tree: Oid,
    pub parents: Seq<Oid>,
    pub message: Seq<char>,
    pub summary: Option<Seq<char>>,
    pub signed: bool,
}

/// A [`Sides`] by its contents.
#[verifier::ext_equal]
pub struct SidesV {
    pub our: Option<Seq<u8>>,
    pub their: Option<Seq<u8>>,
    pub ancestor: Option<Seq<u8>>,
}

/// A [`Query`] by its contents.
#[allow(inconsistent_fields)]
#[verifier::ext_equal]
pub enum QueryV {
    Commit(Oid),
    EmptyTree,
    Merge { base: Oid, ours: Oid, theirs: Oid, how: Merge },
    Entry { tree: Option<Oid>, name: Seq<char> },
    Rebuild { tree: Option<Oid>, name: Seq<char>, change: Change },
    Path { tree: Oid, path: Seq<char> },
    Blob(Seq<char>),
    Recommit { orig: Oid, tree: Oid, parent: Option<Oid>, message: Option<Seq<char>> },
    Create { tree: Oid, parent: Oid, message: Seq<char>, like: Option<Oid> },
    Reaches { ancestor: Oid, from: Oid },
}

/// An [`Answer`] by its contents.
#[allow(inconsistent_fields)]
#[verifier::ext_equal]
pub enum AnswerV {
    Failed(Seq<char>),
    Commit(CommitV),
    Object(Oid),
    Conflict(Option<SidesV>),
    Entry(Option<Entry>),
    Tree { id: Oid, empty: bool },
    Truth(bool),
}

impl View for Oid {
    type V = Oid;

    open spec fn view(&self) -> Oid {
        *self
    }
}

impl View for Entry {
    type V = Entry;

    open spec fn view(&self) -> Entry {
        *self
    }
}

impl View for CommitInfo {
    type V = CommitV;

    open spec fn view(&self) -> CommitV {
        CommitV {
            tree: self.tree,
            parents: self.parents@,
            message: self.message@,
            summary: crate::opt_text(self.summary),
            signed: self.signed,
        }
    }
}

/// An optional byte string by its bytes.
pub open spec fn opt_bytes(b: Option<Vec<u8>>) -> Option<Seq<u8>> {
    match b {
        Some(v) => Some(v@),
        None => None,
    }
}

impl View for Sides {
    type V = SidesV;

    open spec fn view(&self) -> SidesV {
        SidesV {
            our: opt_bytes(self.our),
            their: opt_bytes(self.their),
            ancestor: opt_bytes(self.ancestor),
        }
    }
}

impl View for Query {
    type V = QueryV;

    open spec fn view(&self) -> QueryV {
        match *self {
            Query::Commit(c) => QueryV::Commit(c),
            Query::EmptyTree => QueryV::EmptyTree,
            Query::Merge { base, ours, theirs, how } => QueryV::Merge { base, ours, theirs, how },
            Query::Entry { tree, name } => QueryV::Entry { tree, name: name@ },
            Query::Rebuild { tree, name, change } => QueryV::Rebuild { tree, name: name@, change },
            Query::Path { tree, path } => QueryV::Path { tree, path: path@ },
            Query::Blob(t) => QueryV::Blob(t@),
            Query::Recommit { orig, tree, parent, message } => QueryV::Recommit {
                orig,
                tree,
                parent,
                message: crate::opt_text(message),
            },
            Query::Create { tree, parent, message, like } => QueryV::Create {
                tree,
                parent,
                message: message@,
                like,
            },
            Query::Reaches { ancestor, from } => QueryV::Reaches { ancestor, from },
        }
    }
}

impl View for Answer {
    type V = AnswerV;

    open spec fn view(&self) -> AnswerV {
        match *self {
            Answer::Failed(m) => AnswerV::Failed(m@),
            Answer::Commit(i) => AnswerV::Commit(i@),
            Answer::Object(o) => AnswerV::Object(o),
            Answer::Conflict(None) => AnswerV::Conflict(None),
            Answer::Conflict(Some(s)) => AnswerV::Conflict(Some(s@)),
            Answer::Entry(e) => AnswerV::Entry(e),
            Answer::Tree { id, empty } => AnswerV::Tree { id, empty },
            Answer::Truth(b) => AnswerV::Truth(b),
        }
    }
}

/// Are the two optional ids the same?
pub fn same_oid(a: Option<Oid>, b: Option<Oid>) -> (r: bool)
    ensures
        r == (a == b),
{
    match (a, b) {
        (Some(x), Some(y)) => x == y,
        (None, None) => true,
        _ => false,
    }
}

fn same_opt_text(a: &Option<String>, b: &Option<String>) -> (r: bool)
    ensures
        r == (crate::opt_text(*a) == crate::opt_text(*b)),
{
    match (a, b) {
        (Some(x), Some(y)) => text::same_text(x, y),
        (None, None) => true,
        _ => false,
    }
}

fn same_merge(a: &Merge, b: &Merge) -> (r: bool)
    ensures
        r == (*a == *b),
{
    a.ignore_ws == b.ignore_ws && match (a.favor, b.favor) {
        (Some(x), Some(y)) => x == y,
        (None, None) => true,
        _ => false,
    }
}

impl Query {
    /// Do both ask the same?
    pub fn same(&self, other: &Query) -> (r: bool)
        ensures
            r == (self@ == other@),
    {
        match (self, other) {
            (Query::Commit(a), Query::Commit(b)) => *a == *b,
            (Query::EmptyTree, Query::EmptyTree) => true,
            (
                Query::Merge { base, ours, theirs, how },
                Query::Merge { base: b2, ours: o2, theirs: t2, how: h2 },
            ) => *base == *b2 && *ours == *o2 && *theirs == *t2 && same_merge(how, h2),
            (Query::Entry { tree, name }, Query::Entry { tree: t2, name: n2 }) => same_oid(
                *tree,
                *t2,
            ) && text::same_text(name, n2),
            (
                Query::Rebuild { tree, name, change },
                Query::Rebuild { tree: t2, name: n2, change: c2 },
            ) => same_oid(*tree, *t2) && text::same_text(name, n2) && *change == *c2,
            (Query::Path { tree, path }, Query::Path { tree: t2, path: p2 }) => *tree == *t2
                && text::same_text(path, p2),
            (Query::Blob(a), Query::Blob(b)) => text::same_text(a, b),
            (
                Query::Recommit { orig, tree, parent, message },
                Query::Recommit { orig: o2, tree: t2, parent: p2, message: m2 },
            ) => *orig == *o2 && *tree == *t2 && same_oid(*parent, *p2) && same_opt_text(
                message,
                m2,
            ),
            (
                Query::Create { tree, parent, message, like },
                Query::Create { tree: t2, parent: p2, message: m2, like: l2 },
            ) => *tree == *t2 && *parent == *p2 && text::same_text(message, m2) && same_oid(
                *like,
                *l2,
            ),
            (
                Query::Reaches { ancestor, from },
                Query::Reaches { ancestor: a2, from: f2 },
            ) => *ancestor == *a2 && *from == *f2,
            _ => false,
        }
    }
}

/// A computation's standing, given what is known: it needs one more answer, it
/// failed, or it has its result.
#[derive(Debug)]
pub enum Ask<T> {
    Need(Query),
    Fail(Error),
    Have(T),
}

/// An [`Ask`] by its contents.
#[verifier::ext_equal]
pub enum AskV<T> {
    Need(QueryV),
    Fail(ErrorV),
    Have(T),
}

impl<T: View> View for Ask<T> {
    type V = AskV<T::V>;

    open spec fn view(&self) -> AskV<T::V> {
        match *self {
            Ask::Need(q) => AskV::Need(q@),
            Ask::Fail(e) => AskV::Fail(e@),
            Ask::Have(t) => AskV::Have(t@),
        }
    }
}

/// Answers by the question they were given to.
pub type Known = Map<QueryV, AnswerV>;

/// A conversation that stood at `from` has come on to `to`: by a whole step, or by a
/// part of the step it is in.
pub open spec fn further(from: (nat, nat), to: (nat, nat)) -> bool {
    from.0 < to.0 || (from.0 == to.0 && from.1 < to.1)
}

/// The answers heard so far.
#[derive(Debug)]
pub struct Seen {
    pub log: Vec<(Query, Answer)>,
}

/// What a log tells: the latest answer to each question in it.
pub open spec fn known(log: Seq<(Query, Answer)>) -> Known
    decreases log.len(),
{
    if log.len() == 0 {
        Map::empty()
    } else {
        known(log.drop_last()).insert(log.last().0@, log.last().1@)
    }
}

impl View for Seen {
    type V = Known;

    open spec fn view(&self) -> Known {
        known(self.log@)
    }
}

impl Seen {
    /// Nothing heard yet.
    pub fn new() -> (s: Seen)
        ensures
            s@ == Map::<QueryV, AnswerV>::empty(),
    {
        Seen { log: Vec::new() }
    }

    /// Take an answer down.
    pub fn learn(&mut self, q: Query, a: Answer)
        ensures
            final(self)@ == old(self)@.insert(q@, a@),
    {
        let ghost before = self.log@;
        self.log.push((q, a));
        assert(self.log@.drop_last() =~= before);
    }

    /// The answer to `q`, if it was heard.
    pub fn look(&self, q: &Query) -> (r: Option<&Answer>)
        ensures
            r is Some <==> self@.contains_key(q@),
            r matches Some(a) ==> a@ == self@[q@],
    {
        let mut i: usize = self.log.len();
        assert(self.log@.take(i as int) =~= self.log@);
        while i > 0
            invariant
                0 <= i <= self.log@.len(),
                self@.contains_key(q@) == known(self.log@.take(i as int)).contains_key(q@),
                self@.contains_key(q@) ==> self@[q@] == known(self.log@.take(i as int))[q@],
            decreases i,
        {
            i -= 1;
            assert(self.log@.take(i + 1).drop_last() =~= self.log@.take(i as int));
            assert(self.log@.take(i + 1).last() == self.log@[i as int]);
            if self.log[i].0.same(q) {
                return Some(&self.log[i].1);
            }
        }
        None
    }
}

// ── one question each ───────────────────────────────────────────────────────

/// An answer that does not fit the question.
pub open spec fn trouble(a: AnswerV) -> ErrorV {
    match a {
        AnswerV::Failed(m) => ErrorV::Git(m),
        _ => ErrorV::Git("the object store gave an answer that does not fit"@),
    }
}

pub fn troubled(a: &Answer) -> (e: Error)
    ensures
        e@ == trouble(a@),
{
    match a {
        Answer::Failed(m) => Error::Git(m.clone()),
        _ => Error::Git("the object store gave an answer that does not fit".to_owned()),
    }
}

/// The commit `c`.
pub open spec fn commit_in(k: Known, c: Oid) -> AskV<CommitV> {
    let q = QueryV::Commit(c);
    if !k.contains_key(q) {
        AskV::Need(q)
    } else {
        match k[q] {
            AnswerV::Commit(i) => AskV::Have(i),
            a => AskV::Fail(trouble(a)),
        }
    }
}

/// The id that answers `q`, for the questions answered by one.
pub open spec fn object_in(k: Known, q: QueryV) -> AskV<Oid> {
    if !k.contains_key(q) {
        AskV::Need(q)
    } else {
        match k[q] {
            AnswerV::Object(o) => AskV::Have(o),
            a => AskV::Fail(trouble(a)),
        }
    }
}

/// The entry that answers `q`.
pub open spec fn entry_in(k: Known, q: QueryV) -> AskV<Option<Entry>> {
    if !k.contains_key(q) {
        AskV::Need(q)
    } else {
        match k[q] {
            AnswerV::Entry(e) => AskV::Have(e),
            a => AskV::Fail(trouble(a)),
        }
    }
}

/// The tree that answers `q`, and whether it is empty.
pub open spec fn tree_in(k: Known, q: QueryV) -> AskV<(Oid, bool)> {
    if !k.contains_key(q) {
        AskV::Need(q)
    } else {
        match k[q] {
            AnswerV::Tree { id, empty } => AskV::Have((id, empty)),
            a => AskV::Fail(trouble(a)),
        }
    }
}

/// Is `ancestor` an ancestor of `from`, or the same commit?
pub open spec fn reaches_in(k: Known, ancestor: Oid, from: Oid) -> AskV<bool> {
    let q = QueryV::Reaches { ancestor, from };
    if ancestor == from {
        AskV::Have(true)
    } else if !k.contains_key(q) {
        AskV::Need(q)
    } else {
        match k[q] {
            AnswerV::Truth(b) => AskV::Have(b),
            a => AskV::Fail(trouble(a)),
        }
    }
}

/// The path that names a conflict: ours, else theirs, else the ancestor's.
pub open spec fn conflict_path(s: Option<SidesV>) -> Option<Seq<char>> {
    match s {
        None => None,
        Some(s) => match s.our {
            Some(p) => Some(text::lossy(p)),
            None => match s.their {
                Some(p) => Some(text::lossy(p)),
                None => match s.ancestor {
                    Some(p) => Some(text::lossy(p)),
                    None => None,
                },
            },
        },
    }
}

/// The tree of applying the change from `base` to `theirs` onto `ours`; a
/// conflict is reported at the commit `at`.
pub open spec fn merged_in(
    k: Known,
    base: Oid,
    ours: Oid,
    theirs: Oid,
    how: Merge,
    at: Oid,
) -> AskV<Oid> {
    let q = QueryV::Merge { base, ours, theirs, how };
    if !k.contains_key(q) {
        AskV::Need(q)
    } else {
        match k[q] {
            AnswerV::Object(o) => AskV::Have(o),
            AnswerV::Conflict(s) => AskV::Fail(
                ErrorV::Conflict { commit: at, path: conflict_path(s), suggested: None },
            ),
            a => AskV::Fail(trouble(a)),
        }
    }
}

/// The conflict at `commit`, named by the first conflicting entry.
pub fn conflict(s: &Option<Sides>, commit: Oid) -> (e: Error)
    ensures
        e@ == (ErrorV::Conflict {
            commit,
            path: conflict_path(
                match *s {
                    Some(s) => Some(s@),
                    None => None,
                },
            ),
            suggested: None,
        }),
{
    let path = match s {
        None => None,
        Some(s) => match &s.our {
            Some(p) => Some(text::from_utf8_lossy(p)),
            None => match &s.their {
                Some(p) => Some(text::from_utf8_lossy(p)),
                None => match &s.ancestor {
                    Some(p) => Some(text::from_utf8_lossy(p)),
                    None => None,
                },
            },
        },
    };
    Error::Conflict { commit, path, suggested: None }
}

impl Seen {
    /// The commit `c`.
    pub fn commit(&self, c: Oid) -> (r: Ask<&CommitInfo>)
        ensures
            match r {
                Ask::Need(q) => commit_in(self@, c) == AskV::<CommitV>::Need(q@),
                Ask::Fail(e) => commit_in(self@, c) == AskV::<CommitV>::Fail(e@),
                Ask::Have(i) => commit_in(self@, c) == AskV::Have(i@),
            },
    {
        let q = Query::Commit(c);
        match self.look(&q) {
            None => Ask::Need(q),
            Some(Answer::Commit(i)) => Ask::Have(i),
            Some(a) => Ask::Fail(troubled(a)),
        }
    }

    /// The id that answers `q`.
    pub fn object(&self, q: Query) -> (r: Ask<Oid>)
        ensures
            r@ == object_in(self@, q@),
    {
        match self.look(&q) {
            None => Ask::Need(q),
            Some(Answer::Object(o)) => Ask::Have(*o),
            Some(a) => Ask::Fail(troubled(a)),
        }
    }

    /// The entry that answers `q`.
    pub fn entry(&self, q: Query) -> (r: Ask<Option<Entry>>)
        ensures
            match r {
                Ask::Need(n) => entry_in(self@, q@) == AskV::<Option<Entry>>::Need(n@),
                Ask::Fail(e) => entry_in(self@, q@) == AskV::<Option<Entry>>::Fail(e@),
                Ask::Have(v) => entry_in(self@, q@) == AskV::Have(v),
            },
    {
        match self.look(&q) {
            None => Ask::Need(q),
            Some(Answer::Entry(e)) => Ask::Have(*e),
            Some(a) => Ask::Fail(troubled(a)),
        }
    }

    /// The tree that answers `q`, and whether it is empty.
    pub fn tree(&self, q: Query) -> (r: Ask<(Oid, bool)>)
        ensures
            match r {
                Ask::Need(n) => tree_in(self@, q@) == AskV::<(Oid, bool)>::Need(n@),
                Ask::Fail(e) => tree_in(self@, q@) == AskV::<(Oid, bool)>::Fail(e@),
                Ask::Have(v) => tree_in(self@, q@) == AskV::Have(v),
            },
    {
        match self.look(&q) {
            None => Ask::Need(q),
            Some(Answer::Tree { id, empty }) => Ask::Have((*id, *empty)),
            Some(a) => Ask::Fail(troubled(a)),
        }
    }

    /// Is `ancestor` an ancestor of (or equal to) `from`?
    pub fn is_ancestor(&self, ancestor: Oid, from: Oid) -> (r: Ask<bool>)
        ensures
            match r {
                Ask::Need(n) => reaches_in(self@, ancestor, from) == AskV::<bool>::Need(n@),
                Ask::Fail(e) => reaches_in(self@, ancestor, from) == AskV::<bool>::Fail(e@),
                Ask::Have(v) => reaches_in(self@, ancestor, from) == AskV::Have(v),
            },
    {
        if ancestor == from {
            return Ask::Have(true);
        }
        let q = Query::Reaches { ancestor, from };
        match self.look(&q) {
            None => Ask::Need(q),
            Some(Answer::Truth(b)) => Ask::Have(*b),
            Some(a) => Ask::Fail(troubled(a)),
        }
    }

    /// The tree of applying the change from `base` to `theirs` onto `ours`.
    pub fn merged(&self, base: Oid, ours: Oid, theirs: Oid, how: Merge, at: Oid) -> (r: Ask<Oid>)
        ensures
            r@ == merged_in(self@, base, ours, theirs, how, at),
    {
        let q = Query::Merge { base, ours, theirs, how };
        match self.look(&q) {
            None => Ask::Need(q),
            Some(Answer::Object(o)) => Ask::Have(*o),
            Some(Answer::Conflict(s)) => Ask::Fail(conflict(s, at)),
            Some(a) => Ask::Fail(troubled(a)),
        }
    }
}

} // verus!
