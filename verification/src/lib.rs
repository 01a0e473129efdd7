//! git-transplant: move changes around inside a stack of commits.
//!
//! The whole tool is one in-memory replay (`engine`) driven by a recipe of
//! per-commit edits. Nothing here touches a repository: the library asks
//! questions about objects (`store`), decides, and hands out the few actions
//! that move refs (`ops`). A driver answers the one and performs the other.

pub mod absorb;
pub mod absorb_laws;
pub mod engine;
pub mod git;
pub mod hunk_laws;
pub mod inference;
pub mod oid;
pub mod ops;
pub mod patch;
pub mod plan_laws;
pub mod recipe;
pub mod refs_laws;
pub mod replay_laws;
pub mod report;
pub mod report_laws;
pub mod rewrite;
pub mod rewrite_laws;
pub mod shape_laws;
pub mod split_laws;
pub mod store;
pub mod text;
pub mod trace_laws;
pub mod tree_laws;
pub mod tui;
pub mod undo;

use oid::Oid;
use vstd::prelude::*;

verus! {

/// Everything that can go wrong. A failed rewrite is always *clean*: only
/// unreferenced objects were created, so no ref has moved.
#[allow(inconsistent_fields)]
#[derive(Debug)]
pub enum Error {
    /// The repository itself failed, in its own words.
    Git(String),
    /// A 3-way merge conflicted while replaying or injecting at this commit.
    /// `suggested` is the commit that owns the changed lines, where that is
    /// another one than the one asked for.
    Conflict { commit: Oid, path: Option<String>, suggested: Option<Oid> },
    /// A merge commit sits in the range to rewrite (linear history only).
    MergeInRange { commit: Oid },
    /// The requested base is not an ancestor of the tip.
    BaseNotAncestor,
    /// The target is not an ancestor of HEAD (nothing to fold into).
    TargetNotAncestor,
    /// The working tree has changes other than the intended input.
    DirtyWorktree,
    /// A path was expected in a tree but is absent.
    PathNotFound { path: String },
    /// A whole-file move found the file modified within the span it must cross.
    FileModified { path: String, commit: Oid },
    /// Nothing to do, or a request that cannot be met; the text says which.
    Empty(String),
    /// HEAD is not on a branch.
    DetachedHead,
    /// No staged change to fold.
    NothingStaged,
}

/// An [`Error`] by what it says.
#[allow(inconsistent_fields)]
#[verifier::ext_equal]
pub enum ErrorV {
    Git(Seq<char>),
    Conflict { commit: Oid, path: Option<Seq<char>>, suggested: Option<Oid> },
    MergeInRange { commit: Oid },
    BaseNotAncestor,
    TargetNotAncestor,
    DirtyWorktree,
    PathNotFound { path: Seq<char> },
    FileModified { path: Seq<char>, commit: Oid },
    Empty(Seq<char>),
    DetachedHead,
    NothingStaged,
}

/// An optional text by its characters.
pub open spec fn opt_text(s: Option<String>) -> Option<Seq<char>> {
    match s {
        Some(t) => Some(t@),
        None => None,
    }
}

impl View for Error {
    type V = ErrorV;

    open spec fn view(&self) -> ErrorV {
        match *self {
            Error::Git(m) => ErrorV::Git(m@),
            Error::Conflict { commit, path, suggested } => ErrorV::Conflict {
                commit,
                path: opt_text(path),
                suggested,
            },
            Error::MergeInRange { commit } => ErrorV::MergeInRange { commit },
            Error::BaseNotAncestor => ErrorV::BaseNotAncestor,
            Error::TargetNotAncestor => ErrorV::TargetNotAncestor,
            Error::DirtyWorktree => ErrorV::DirtyWorktree,
            Error::PathNotFound { path } => ErrorV::PathNotFound { path: path@ },
            Error::FileModified { path, commit } => ErrorV::FileModified { path: path@, commit },
            Error::Empty(m) => ErrorV::Empty(m@),
            Error::DetachedHead => ErrorV::DetachedHead,
            Error::NothingStaged => ErrorV::NothingStaged,
        }
    }
}

impl ErrorV {
    /// What the user reads.
    pub open spec fn message(self) -> Seq<char> {
        match self {
            ErrorV::Git(m) => "git error: "@ + m,
            ErrorV::Conflict { commit, path, suggested } => {
                let head = "conflict while rewriting "@ + commit.spec_short() + match path {
                    Some(p) => " in "@ + p,
                    None => ""@,
                };
                match suggested {
                    Some(s) => head + " — "@ + s.spec_short() + " owns those lines; try `fix "@
                        + s.spec_short() + "` or `absorb`"@,
                    None => head,
                }
            },
            ErrorV::MergeInRange { commit } => "merge commit "@ + commit.spec_short()
                + " in range; only linear history is supported"@,
            ErrorV::BaseNotAncestor => "base is not an ancestor of the tip"@,
            ErrorV::TargetNotAncestor => "target is not an ancestor of HEAD"@,
            ErrorV::DirtyWorktree =>
                "working tree has unstaged/untracked changes; commit, stash, or clean first"@,
            ErrorV::PathNotFound { path } => "path not found: "@ + path,
            ErrorV::FileModified { path, commit } => path + " is modified at "@
                + commit.spec_short() + "; move is not clean (aborting)"@,
            ErrorV::Empty(m) => m,
            ErrorV::DetachedHead => "HEAD is detached; check out a branch first"@,
            ErrorV::NothingStaged => "nothing staged to fold; `git add` your fix first"@,
        }
    }
}

impl Error {
    /// What the user reads.
    pub fn message(&self) -> (s: String)
        ensures
            s@ == self@.message(),
    {
        match self {
            Error::Git(m) => "git error: ".to_owned().concat(m),
            Error::Conflict { commit, path, suggested } => {
                let tail = match path {
                    Some(p) => " in ".to_owned().concat(p),
                    None => "".to_owned(),
                };
                let head = "conflict while rewriting ".to_owned().concat(&commit.short()).concat(
                    &tail,
                );
                match suggested {
                    Some(s) => head.concat(" — ").concat(&s.short()).concat(
                        " owns those lines; try `fix ",
                    ).concat(&s.short()).concat("` or `absorb`"),
                    None => head,
                }
            },
            Error::MergeInRange { commit } => "merge commit ".to_owned().concat(
                &commit.short(),
            ).concat(" in range; only linear history is supported"),
            Error::BaseNotAncestor => "base is not an ancestor of the tip".to_owned(),
            Error::TargetNotAncestor => "target is not an ancestor of HEAD".to_owned(),
            Error::DirtyWorktree =>
                "working tree has unstaged/untracked changes; commit, stash, or clean first".to_owned(),
            Error::PathNotFound { path } => "path not found: ".to_owned().concat(path),
            Error::FileModified { path, commit } => path.clone().concat(" is modified at ").concat(
                &commit.short(),
            ).concat("; move is not clean (aborting)"),
            Error::Empty(m) => m.clone(),
            Error::DetachedHead => "HEAD is detached; check out a branch first".to_owned(),
            Error::NothingStaged => "nothing staged to fold; `git add` your fix first".to_owned(),
        }
    }
}

} // verus!
