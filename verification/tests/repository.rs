//! The operations and the screen, run against real repositories.

#![allow(dead_code)]

use std::path::Path;

use git2::build::CheckoutBuilder;
use git2::Repository;
use ratatui::layout::{Constraint, Direction, Layout, Rect};
use ratatui::style::{Color, Modifier, Style};
use ratatui::text::{self, Span};
use ratatui::widgets::{Block, Borders, Clear, List, ListItem, ListState, Paragraph, Wrap};
use ratatui::Frame;

use git_transplant::absorb::{self, Absorbed, Delta, DeltaKind, Folding};
use git_transplant::engine::{self, Edit, Recipe, Replay, Replaying};
use git_transplant::git::{self, FileFavor, Merge, Stack, Walk};
use git_transplant::inference;
use git_transplant::oid::Oid;
use git_transplant::ops::{
    self, Action, Event, LogEntry, Opts, Promotion, RefInfo, Request, Status, Verb,
};
use git_transplant::patch::{self, Hunk};
use git_transplant::recipe::{self, Moving, Plan, Shaped};
use git_transplant::rewrite::{Failure, Outcome, Rewrite, Step};
use git_transplant::store::{Answer, Ask, Change, CommitInfo, Entry, Query, Seen, Sides};
use git_transplant::tui::flow::{Job, News, Want};
use git_transplant::tui::keys::on_key;
use git_transplant::tui::source::{
    self, CommitRead, Indexed, Opening, Snapshot, Worktree, DEFAULT_STACK,
};
use git_transplant::tui::view::{
    self, help, hint, Area, Column, Line, ListView, TextView, Tone,
};
use git_transplant::tui::{
    flatten, phantom, App, CommitRow, FileEntry, Flow, Key, Pane, Shape, Source,
};
use git_transplant::undo::{self, Undo};
use git_transplant::Error;

// ── the driver ──────────────────────────────────────────────────────────────

fn oid(o: git2::Oid) -> Oid {
    Oid::from_bytes(o.as_bytes()).expect("an object id has twenty bytes")
}

fn raw(o: Oid) -> git2::Oid {
    git2::Oid::from_bytes(&o.bytes()).expect("an object id has twenty bytes")
}

fn failed(e: git2::Error) -> Error {
    Error::Git(e.to_string())
}

// ── queries ─────────────────────────────────────────────────────────────────

/// A signature to stamp new commits with; falls back if git identity is unset.
fn ident(repo: &Repository) -> Result<git2::Signature<'static>, git2::Error> {
    repo.signature().or_else(|_| git2::Signature::now("git-transplant", "git-transplant@localhost"))
}

fn info(c: &git2::Commit) -> CommitInfo {
    CommitInfo {
        tree: oid(c.tree_id()),
        parents: c.parent_ids().map(oid).collect(),
        message: c.message().unwrap_or("").to_string(),
        summary: c.summary().map(str::to_string),
        signed: c.header_field_bytes("gpgsig").is_ok(),
    }
}

fn entry(e: &git2::TreeEntry) -> Entry {
    Entry {
        id: oid(e.id()),
        mode: e.filemode(),
        dir: e.kind() == Some(git2::ObjectType::Tree),
    }
}

/// The options of one merge.
fn merge_options(how: &Merge) -> git2::MergeOptions {
    let o = how.opts();
    let mut mo = git2::MergeOptions::new();
    mo.patience(o.patience).ignore_whitespace(o.ignore_whitespace);
    if let Some(f) = o.file_favor {
        mo.file_favor(match f {
            FileFavor::Ours => git2::FileFavor::Ours,
            FileFavor::Theirs => git2::FileFavor::Theirs,
            FileFavor::Union => git2::FileFavor::Union,
        });
    }
    mo
}

fn sides(c: git2::IndexConflict) -> Sides {
    Sides {
        our: c.our.map(|e| e.path),
        their: c.their.map(|e| e.path),
        ancestor: c.ancestor.map(|e| e.path),
    }
}

fn merge(
    repo: &Repository,
    base: Oid,
    ours: Oid,
    theirs: Oid,
    how: &Merge,
) -> Result<Answer, git2::Error> {
    let mut merged = repo.merge_trees(
        &repo.find_tree(raw(base))?,
        &repo.find_tree(raw(ours))?,
        &repo.find_tree(raw(theirs))?,
        Some(&merge_options(how)),
    )?;
    if merged.has_conflicts() {
        let first = merged.conflicts()?.flatten().next();
        return Ok(Answer::Conflict(first.map(sides)));
    }
    Ok(Answer::Object(oid(merged.write_tree_to(repo)?)))
}

fn rebuild(
    repo: &Repository,
    tree: Option<Oid>,
    name: &str,
    change: &Change,
) -> Result<Answer, git2::Error> {
    let start = tree.map(|t| repo.find_tree(raw(t))).transpose()?;
    let mut b = repo.treebuilder(start.as_ref())?;
    match change {
        Change::Keep => {}
        Change::Put { id, mode } => {
            b.insert(name, raw(*id), *mode)?;
        }
        Change::Remove => {
            if b.get(name)?.is_some() {
                b.remove(name)?;
            }
        }
    }
    let empty = b.is_empty();
    Ok(Answer::Tree { id: oid(b.write()?), empty })
}

/// `orig` again with another tree and parent: same author, same committer, and unless
/// there is a new one, the same message.
fn recommit(
    repo: &Repository,
    orig: Oid,
    tree: Oid,
    parent: Option<Oid>,
    message: &Option<String>,
) -> Result<Answer, git2::Error> {
    let c = repo.find_commit(raw(orig))?;
    let tree = repo.find_tree(raw(tree))?;
    let parent = parent.map(|p| repo.find_commit(raw(p))).transpose()?;
    let parents: Vec<&git2::Commit> = parent.iter().collect();
    let text = match message {
        Some(m) => m.as_str(),
        None => c.message_raw().unwrap_or(""),
    };
    let new = repo.commit(None, &c.author(), &c.committer(), text, &tree, &parents)?;
    Ok(Answer::Object(oid(new)))
}

fn create(
    repo: &Repository,
    tree: Oid,
    parent: Oid,
    message: &str,
    like: Option<Oid>,
) -> Result<Answer, git2::Error> {
    let tree = repo.find_tree(raw(tree))?;
    let parent = repo.find_commit(raw(parent))?;
    let new = match like {
        Some(c) => {
            let c = repo.find_commit(raw(c))?;
            let (author, committer) = (c.author(), c.committer());
            repo.commit(None, &author, &committer, message, &tree, &[&parent])?
        }
        None => {
            let sig = ident(repo)?;
            repo.commit(None, &sig, &sig, message, &tree, &[&parent])?
        }
    };
    Ok(Answer::Object(oid(new)))
}

fn answer(repo: &Repository, q: &Query) -> Result<Answer, git2::Error> {
    Ok(match q {
        Query::Commit(c) => Answer::Commit(info(&repo.find_commit(raw(*c))?)),
        Query::EmptyTree => Answer::Object(oid(repo.treebuilder(None)?.write()?)),
        Query::Merge { base, ours, theirs, how } => merge(repo, *base, *ours, *theirs, how)?,
        Query::Entry { tree, name } => Answer::Entry(match tree {
            Some(t) => repo.find_tree(raw(*t))?.get_name(name).map(|e| entry(&e)),
            None => None,
        }),
        Query::Rebuild { tree, name, change } => rebuild(repo, *tree, name, change)?,
        Query::Path { tree, path } => {
            Answer::Entry(repo.find_tree(raw(*tree))?.get_path(Path::new(path)).ok().map(|e| entry(&e)))
        }
        Query::Blob(text) => Answer::Object(oid(repo.blob(text.as_bytes())?)),
        Query::Recommit { orig, tree, parent, message } => {
            recommit(repo, *orig, *tree, *parent, message)?
        }
        Query::Create { tree, parent, message, like } => {
            create(repo, *tree, *parent, message, *like)?
        }
        Query::Reaches { ancestor, from } => Answer::Truth(
            ancestor == from || repo.graph_descendant_of(raw(*from), raw(*ancestor))?,
        ),
    })
}

/// What the object store answers. Every object it makes is unreferenced.
fn look(repo: &Repository, q: &Query) -> Answer {
    answer(repo, q).unwrap_or_else(|e| Answer::Failed(e.to_string()))
}

/// Run a computation over what was seen, answering as it asks.
fn ask<T>(repo: &Repository, f: impl Fn(&Seen) -> Ask<T>) -> Result<T, Error> {
    let mut seen = Seen::new();
    loop {
        match f(&seen) {
            Ask::Need(q) => {
                let a = look(repo, &q);
                seen.learn(q, a);
            }
            Ask::Fail(e) => return Err(e),
            Ask::Have(t) => return Ok(t),
        }
    }
}

fn walk(repo: &Repository, mut w: Walk) -> Result<Stack, Error> {
    loop {
        match w.next() {
            Ask::Need(q) => {
                let a = look(repo, &q);
                w.answer(q, a);
            }
            Ask::Fail(e) => return Err(e),
            Ask::Have(s) => return Ok(s),
        }
    }
}

fn fold(repo: &Repository, mut f: Folding) -> Result<Recipe, Error> {
    loop {
        match f.next() {
            Ask::Need(q) => {
                let a = look(repo, &q);
                f.answer(q, a);
            }
            Ask::Fail(e) => return Err(e),
            Ask::Have(r) => return Ok(r),
        }
    }
}

fn plan_move(repo: &Repository, mut m: Moving) -> Result<Plan, Error> {
    loop {
        match m.next() {
            Ask::Need(q) => {
                let a = look(repo, &q);
                m.answer(q, a);
            }
            Ask::Fail(e) => return Err(e),
            Ask::Have(p) => return Ok(p),
        }
    }
}

// ── refs, worktree and index ────────────────────────────────────────────────

/// The branches that other worktrees of the repository have checked out.
fn checked_out_elsewhere(repo: &Repository) -> Vec<String> {
    let mut out = Vec::new();
    let mut note = |other: Repository| {
        if other.path() != repo.path() {
            if let Some(name) = other.head().ok().and_then(|h| h.name().map(str::to_string)) {
                out.push(name);
            }
        }
    };
    if let Ok(main) = Repository::open(repo.commondir()) {
        if !main.is_bare() {
            note(main);
        }
    }
    if let Ok(names) = repo.worktrees() {
        for name in names.iter().flatten() {
            if let Ok(w) = repo.find_worktree(name) {
                if let Ok(other) = Repository::open_from_worktree(&w) {
                    note(other);
                }
            }
        }
    }
    out
}

fn log_entry(e: &git2::ReflogEntry) -> LogEntry {
    LogEntry {
        old: oid(e.id_old()),
        new: oid(e.id_new()),
        message: e.message().unwrap_or("").to_string(),
    }
}

fn list_refs(repo: &Repository) -> Result<Vec<RefInfo>, git2::Error> {
    let elsewhere = checked_out_elsewhere(repo);
    let mut out = Vec::new();
    for r in repo.references()? {
        let r = r?;
        let (Some(name), Ok(c)) = (r.name(), r.peel_to_commit()) else { continue };
        out.push(RefInfo {
            name: name.to_string(),
            target: oid(c.id()),
            branch: r.is_branch(),
            tag: r.is_tag(),
            elsewhere: elsewhere.iter().any(|e| e == name),
            log: repo.reflog(name).ok().and_then(|l| l.get(0).map(|e| log_entry(&e))),
        });
    }
    Ok(out)
}

fn checkout(repo: &Repository, tip: Oid) -> Result<(), git2::Error> {
    let tree = repo.find_commit(raw(tip))?.tree()?;
    let mut co = CheckoutBuilder::new();
    co.force();
    repo.checkout_tree(tree.as_object(), Some(&mut co))
}

/// An index entry with zeroed stat fields: git re-hashes the file instead of trusting
/// a timestamp that nobody observed.
fn index_entry(path: &str, id: git2::Oid, mode: u32) -> git2::IndexEntry {
    git2::IndexEntry {
        ctime: git2::IndexTime::new(0, 0),
        mtime: git2::IndexTime::new(0, 0),
        dev: 0,
        ino: 0,
        mode,
        uid: 0,
        gid: 0,
        file_size: 0,
        id,
        flags: 0,
        flags_extended: 0,
        path: path.as_bytes().to_vec(),
    }
}

/// Advance the index to `tip` for these paths only. The worktree is left alone.
fn refresh_index(repo: &Repository, tip: Oid, paths: &[String]) -> Result<(), git2::Error> {
    let tree = repo.find_commit(raw(tip))?.tree()?;
    let mut idx = repo.index()?;
    for p in paths {
        match tree.get_path(Path::new(p)) {
            Ok(e) => idx.add(&index_entry(p, e.id(), e.filemode() as u32))?,
            Err(_) => idx.remove_path(Path::new(p))?,
        }
    }
    idx.write()
}

/// Carry out an action, and say what came of it.
fn act(repo: &Repository, a: &Action) -> Event {
    let done = |r: Result<(), git2::Error>| match r {
        Ok(()) => Event::Done,
        Err(e) => Event::Failed(e.to_string()),
    };
    match a {
        Action::ListRefs => match list_refs(repo) {
            Ok(refs) => Event::Refs(refs),
            Err(e) => Event::Failed(e.to_string()),
        },
        Action::Checkout(tip) => done(checkout(repo, *tip)),
        Action::MoveRef { name, to, from, message } => {
            match repo.reference_matching(name, raw(*to), true, raw(*from), message) {
                Ok(_) => Event::Done,
                Err(e) => Event::Refused {
                    now: repo.refname_to_id(name).ok().map(oid),
                    why: e.to_string(),
                },
            }
        }
        Action::MergeBase { one, two } => {
            Event::Base(repo.merge_base(raw(*one), raw(*two)).ok().map(oid))
        }
        Action::RefreshIndex { tip, paths } => done(refresh_index(repo, *tip, paths)),
    }
}

fn promote(repo: &Repository, p: &Promotion) -> Result<(), Error> {
    let mut at = p.start();
    while let Some(a) = p.action(at) {
        at = p.after(at, act(repo, &a))?;
    }
    Ok(())
}

/// Run a rewrite to its end.
fn rewrite(
    repo: &Repository,
    mut r: Rewrite,
) -> Result<(Outcome, Option<String>), Failure> {
    loop {
        match r.next() {
            Step::Look(q) => {
                let a = look(repo, &q);
                r.hear(q, a);
            }
            Step::Act(a) => {
                if let Some(f) = r.react(act(repo, &a)) {
                    return Err(f);
                }
            }
            Step::Done(outcome, index) => return Ok((outcome, index)),
            Step::Fail(f) => return Err(f),
        }
    }
}

fn run_undo(repo: &Repository, mut u: Undo) -> Result<Outcome, Error> {
    loop {
        match u.next() {
            // An undo reads no object: it moves refs and nothing else.
            Step::Look(_) => unreachable!(),
            Step::Act(a) => {
                if let Some(f) = u.react(act(repo, &a)) {
                    return Err(f.error);
                }
            }
            Step::Done(outcome, _) => return Ok(outcome),
            Step::Fail(f) => return Err(f.error),
        }
    }
}

// ── what is read up front ───────────────────────────────────────────────────

fn resolve(repo: &Repository, rev: &str) -> Result<Oid, Error> {
    let c = repo.revparse_single(rev).and_then(|o| o.peel_to_commit()).map_err(failed)?;
    Ok(oid(c.id()))
}

fn head_branch(repo: &Repository) -> Result<String, Error> {
    let head = repo.head().map_err(failed)?;
    ops::head_branch(if head.is_branch() { head.name() } else { None })
}

fn statuses(repo: &Repository) -> Result<Vec<Status>, Error> {
    let mut o = git2::StatusOptions::new();
    o.include_untracked(false).include_ignored(false);
    let found = repo.statuses(Some(&mut o)).map_err(failed)?;
    Ok(found
        .iter()
        .map(|e| {
            let s = e.status();
            Status {
                wt_modified: s.is_wt_modified(),
                wt_deleted: s.is_wt_deleted(),
                wt_renamed: s.is_wt_renamed(),
                wt_typechange: s.is_wt_typechange(),
                staged: s.is_index_new()
                    || s.is_index_modified()
                    || s.is_index_deleted()
                    || s.is_index_renamed()
                    || s.is_index_typechange(),
            }
        })
        .collect())
}

/// A path's content in `tree`, or empty if it isn't there.
fn blob_at(repo: &Repository, tree: &git2::Tree, path: &str) -> Vec<u8> {
    tree.get_path(Path::new(path))
        .and_then(|e| e.to_object(repo))
        .ok()
        .and_then(|o| o.peel_to_blob().ok())
        .map(|b| b.content().to_vec())
        .unwrap_or_default()
}

/// Who owns each line of the file at HEAD, as far as `text` reaches.
fn owners(repo: &Repository, path: &str, text: &[u8]) -> Result<Vec<Option<Oid>>, String> {
    let blame = repo.blame_file(Path::new(path), None).map_err(|e| e.to_string())?;
    let lines = text.split_inclusive(|b| *b == b'\n').count();
    Ok((1..=lines).map(|n| blame.get_line(n).map(|h| oid(h.final_commit_id()))).collect())
}

/// The deltas of a diff, each with both sides of its file; one whose new side cannot
/// be read is left out.
fn deltas(
    repo: &Repository,
    diff: &git2::Diff,
    old: impl Fn(&str) -> Vec<u8>,
    new: impl Fn(&str) -> Option<Vec<u8>>,
) -> Vec<Delta> {
    let mut out = Vec::new();
    for d in diff.deltas() {
        let kind = match d.status() {
            git2::Delta::Modified => DeltaKind::Modified,
            git2::Delta::Added => DeltaKind::Added,
            git2::Delta::Untracked => DeltaKind::Untracked,
            _ => DeltaKind::Other,
        };
        let mut named = d.new_file().path();
        if kind == DeltaKind::Other {
            named = named.or_else(|| d.old_file().path());
        }
        let path = named.map(|p| p.to_string_lossy().into_owned());
        let mode = source::file_mode(u32::from(d.new_file().mode()));
        let nothing = Delta {
            kind,
            path: path.clone(),
            old: Vec::new(),
            new: Vec::new(),
            mode,
            blame: Ok(Vec::new()),
        };
        match path {
            Some(p) if kind != DeltaKind::Other => {
                let before = old(&p);
                let Some(after) = new(&p) else { continue };
                let blame = owners(repo, &p, &before);
                out.push(Delta { old: before, new: after, blame, ..nothing });
            }
            _ => out.push(nothing),
        }
    }
    out
}

fn tree_deltas(
    repo: &Repository,
    old: &git2::Tree,
    new: &git2::Tree,
) -> Result<Vec<Delta>, git2::Error> {
    let diff = repo.diff_tree_to_tree(Some(old), Some(new), None)?;
    Ok(deltas(repo, &diff, |p| blob_at(repo, old, p), |p| Some(blob_at(repo, new, p))))
}

/// HEAD's tree and the index as a tree.
fn staged_trees(repo: &Repository) -> Result<(git2::Tree<'_>, git2::Tree<'_>), git2::Error> {
    let old = repo.head()?.peel_to_commit()?.tree()?;
    let new = repo.find_tree(repo.index()?.write_tree()?)?;
    Ok((old, new))
}

/// The tool's branch log, newest entry first.
fn branch_log(repo: &Repository, branch: &str) -> Result<Vec<LogEntry>, Error> {
    Ok(repo.reflog(branch).map_err(failed)?.iter().map(|e| log_entry(&e)).collect())
}

// ── operations ──────────────────────────────────────────────────────────────

fn clean(repo: &Repository) -> Result<bool, Error> {
    Ok(ops::require_clean_unstaged(&statuses(repo)?).is_ok())
}

fn request(repo: &Repository, rev: &str) -> Result<Request, Error> {
    ops::request(head_branch(repo), resolve(repo, "HEAD"), resolve(repo, rev))
}

fn clean_request(repo: &Repository, rev: &str) -> Result<Request, Error> {
    ops::clean_request(head_branch(repo), statuses(repo), resolve(repo, "HEAD"), resolve(repo, rev))
}

/// The request of a fold, with HEAD's tree and the index as a tree.
fn staged_request<'r>(
    repo: &'r Repository,
    rev: &str,
) -> Result<(Request, git2::Tree<'r>, git2::Tree<'r>), Error> {
    let trees = staged_trees(repo);
    let ids = match &trees {
        Ok((old, new)) => Ok((oid(old.id()), oid(new.id()))),
        Err(e) => Err(Error::Git(e.to_string())),
    };
    let q = ops::staged_request(head_branch(repo), resolve(repo, "HEAD"), resolve(repo, rev), ids)?;
    let (old, new) = trees.map_err(failed)?;
    Ok((q, old, new))
}

fn finish(repo: &Repository, r: Rewrite) -> Result<Outcome, Error> {
    match rewrite(repo, r) {
        Ok((outcome, _)) => Ok(outcome),
        Err(f) => Err(f.error),
    }
}

/// Where the staged change would have gone cleanly, if blame knows a better home.
fn suggest(repo: &Repository, head: Oid, requested: Oid) -> Result<Option<Oid>, Error> {
    let (old, new) = staged_trees(repo).map_err(failed)?;
    let window = walk(repo, git::linear_commits(None, head))?.ids();
    let deltas = tree_deltas(repo, &old, &new).map_err(failed)?;
    Ok(absorb::suggest_target(&deltas, &window, requested))
}

fn fix(repo: &Repository, rev: &str, opts: &Opts) -> Result<Outcome, Error> {
    let (q, _, new) = staged_request(repo, rev)?;
    let (target, head, staged) = (q.rev, q.head, oid(new.id()));
    let plan = ask(repo, |seen| recipe::fix(seen, target, head, staged))?;
    match rewrite(repo, ops::fix(q.branch, plan, target, clean(repo)?, opts)) {
        Ok((outcome, _)) => Ok(outcome),
        Err(f) => Err(absorb::explained(f, suggest(repo, head, target).unwrap_or(None))),
    }
}

fn mv(repo: &Repository, path: &str, rev: &str, opts: &Opts) -> Result<Outcome, Error> {
    let q = clean_request(repo, rev)?;
    let plan = plan_move(repo, recipe::mv(path, q.rev, q.head))?;
    finish(repo, ops::mv(q.branch, plan, path, q.rev, opts))
}

fn reword(repo: &Repository, rev: &str, msg: &str, opts: &Opts) -> Result<Outcome, Error> {
    let q = request(repo, rev)?;
    let plan = ask(repo, |seen| recipe::reword(seen, q.rev, q.head, msg))?;
    finish(repo, ops::reword(q.branch, plan, q.rev, opts))
}

fn collapse(repo: &Repository, base: Option<Oid>, opts: &Opts) -> Result<Absorbed, Error> {
    let (q, old, new) = staged_request(repo, "HEAD")?;
    let stack = walk(repo, git::window(base, q.head))?;
    let deltas = tree_deltas(repo, &old, &new).map_err(failed)?;
    let routing = absorb::collapse(&deltas, &stack.ids())?;
    let mut absorbed = routing.absorbed();
    let Some(below) = absorb::replay_base(&stack, &routing.folds) else { return Ok(absorbed) };
    let orphans = absorbed.orphans;
    let recipe = fold(repo, Folding::new(q.head, routing.folds))?;
    let r = ops::absorb(q.branch, below, q.head, recipe, orphans, clean(repo)?, opts);
    absorbed.outcome = Some(finish(repo, r)?);
    Ok(absorbed)
}

/// A shape verb from the command line: it needs a clean tree, and ends in a checkout.
fn shape(
    repo: &Repository,
    verb: Verb,
    rev: &str,
    opts: &Opts,
    plan: impl Fn(&Stack, Oid, Oid) -> Result<Shaped, Error>,
) -> Result<Outcome, Error> {
    let q = clean_request(repo, rev)?;
    let stack = walk(repo, recipe::stack(None, q.head))?;
    let shaped = plan(&stack, q.head, q.rev)?;
    finish(repo, ops::shape(q.branch, shaped, &verb.message(q.rev), true, opts))
}

fn drop_commit(repo: &Repository, rev: &str, opts: &Opts) -> Result<Outcome, Error> {
    shape(repo, Verb::Drop, rev, opts, recipe::drop_commit)
}

fn reorder(
    repo: &Repository,
    rev: &str,
    anchor: &str,
    before: bool,
    opts: &Opts,
) -> Result<Outcome, Error> {
    let anchor = resolve(repo, anchor)?;
    shape(repo, Verb::Reorder, rev, opts, |s, head, rev| {
        recipe::reorder(s, head, rev, anchor, before)
    })
}

fn squash(
    repo: &Repository,
    rev: &str,
    msg: Option<&str>,
    opts: &Opts,
) -> Result<Outcome, Error> {
    shape(repo, Verb::Squash, rev, opts, |s, head, rev| recipe::squash(s, head, rev, msg))
}

fn split(
    repo: &Repository,
    rev: &str,
    paths: &Vec<String>,
    msg: Option<&str>,
    opts: &Opts,
) -> Result<Outcome, Error> {
    shape(repo, Verb::Split, rev, opts, |s, head, rev| {
        ask(repo, |seen| recipe::split(seen, s, head, rev, paths, msg))
    })
}

fn undo(repo: &Repository, dry_run: bool) -> Result<Outcome, Error> {
    let branch = head_branch(repo)?;
    let log = branch_log(repo, &branch)?;
    let current = oid(repo.refname_to_id(&branch).map_err(failed)?);
    run_undo(repo, undo::undo(&branch, log, current, dry_run)?)
}

// ── the screen's reads and writes ───────────────────────────────────────────

/// Every local branch tip, with its short name.
fn decorations(repo: &Repository) -> Vec<(Oid, String)> {
    let mut out = Vec::new();
    let Ok(branches) = repo.branches(Some(git2::BranchType::Local)) else { return out };
    for (b, _) in branches.flatten() {
        if let (Some(tip), Ok(Some(name))) = (b.get().target(), b.name()) {
            out.push((oid(tip), name.to_string()));
        }
    }
    out
}

/// Every file of a tree.
fn tracked_files(tree: &git2::Tree) -> Vec<String> {
    let mut out = Vec::new();
    let _ = tree.walk(git2::TreeWalkMode::PreOrder, |root, e| {
        if e.kind() == Some(git2::ObjectType::Blob) {
            out.push(format!("{root}{}", e.name().unwrap_or("")));
        }
        git2::TreeWalkResult::Ok
    });
    out
}

/// Gather what the screen shows. `base` bounds the stack.
fn load(repo: &Repository, base: Option<Oid>, opts: Opts) -> Result<App, Error> {
    let branch = head_branch(repo)?;
    let head = resolve(repo, "HEAD")?;
    let stack = walk(repo, git::window(base, head))?;
    let (old, new) = staged_trees(repo).map_err(failed)?;
    let snap = Snapshot {
        branch,
        head,
        stack,
        decorations: decorations(repo),
        deltas: tree_deltas(repo, &old, &new).map_err(failed)?,
        paths: tracked_files(&old),
        statuses: statuses(repo).ok(),
    };
    Ok(source::load(snap, base, opts))
}

fn reload(app: &mut App, repo: &Repository, status: String) {
    let fresh = load(repo, app.base, app.opts);
    app.reload(fresh, status);
}

fn reset_to_staged(app: &mut App, repo: &Repository) {
    let fresh = load(repo, app.base, app.opts);
    app.reset_to_staged(fresh);
}

/// Undo the last transplant and show the stack it restored.
fn undo_last(app: &mut App, repo: &Repository) {
    if let Some(done) = app.undo(undo(repo, false)) {
        reload(app, repo, done);
    }
}

fn read_worktree(repo: &Repository) -> Worktree {
    let Some(root) = repo.workdir().map(|p| p.to_path_buf()) else { return Worktree::Bare };
    let index = repo.index().and_then(|mut i| i.write_tree()).and_then(|o| repo.find_tree(o));
    let index = match index {
        Ok(t) => t,
        Err(e) => return Worktree::NoIndex(e.to_string()),
    };
    let mut o = git2::DiffOptions::new();
    o.include_untracked(true).recurse_untracked_dirs(true).include_ignored(false);
    let Ok(diff) = repo.diff_tree_to_workdir(Some(&index), Some(&mut o)) else {
        return Worktree::NoDiff;
    };
    let deltas = deltas(
        repo,
        &diff,
        |p| blob_at(repo, &index, p),
        |p| on_disk(repo, &root.join(p)),
    );
    Worktree::Read { index: oid(index.id()), deltas }
}

/// A file's bytes as they are on disk.
fn on_disk(repo: &Repository, path: &Path) -> Option<Vec<u8>> {
    let id = repo.blob_path(path).ok()?;
    Some(repo.find_blob(id).ok()?.content().to_vec())
}

/// The index tree as an unreferenced commit on top of `head`.
fn commit_index(repo: &Repository, head: Oid, index: Oid) -> Indexed {
    let Ok(parent) = repo.find_commit(raw(head)) else { return Indexed::NoHead };
    let made = ident(repo).and_then(|sig| {
        let tree = repo.find_tree(raw(index))?;
        repo.commit(None, &sig, &sig, "transplant-index", &tree, &[&parent])
    });
    match made {
        Ok(c) => Indexed::Done(oid(c)),
        Err(_) => Indexed::Failed,
    }
}

/// Make the unstaged change the source of the hunk list, or leave it.
fn open_unstaged_source(app: &mut App, repo: &Repository) {
    match app.unstaged_opening() {
        Opening::Reset => reset_to_staged(app, repo),
        Opening::Worktree => {
            if let Some((found, index)) = app.open_unstaged_source(read_worktree(repo)) {
                let indexed = commit_index(repo, app.head, index);
                app.show_unstaged(found, indexed);
            }
        }
        Opening::Refused | Opening::Commit(_) => {}
    }
}

fn read_commit(repo: &Repository, c: Oid) -> CommitRead {
    let Ok(commit) = repo.find_commit(raw(c)) else { return CommitRead::Gone };
    let Ok(parent) = commit.parent(0) else { return CommitRead::Root };
    let (Ok(new), Ok(old)) = (commit.tree(), parent.tree()) else { return CommitRead::Gone };
    match tree_deltas(repo, &old, &new) {
        Ok(deltas) => CommitRead::Read { parent: oid(parent.id()), deltas },
        Err(_) => CommitRead::Gone,
    }
}

/// Make the commit under the cursor the source of the hunk list, or leave it.
fn open_commit_source(app: &mut App, repo: &Repository) {
    match app.commit_opening() {
        Opening::Reset => reset_to_staged(app, repo),
        Opening::Commit(c) => app.open_commit_source(c, read_commit(repo, c)),
        Opening::Refused | Opening::Worktree => {}
    }
}

/// Fill in the cursor commit's diff if it hasn't been read yet.
fn ensure_diff(app: &mut App, repo: &Repository) {
    let Some(c) = app.ensure_diff() else { return };
    let Ok(commit) = repo.find_commit(raw(c)) else { return };
    let new = commit.tree().ok();
    let old = commit.parent(0).ok().and_then(|p| p.tree().ok());
    let mut pieces: Vec<(char, Vec<u8>)> = Vec::new();
    if let Ok(diff) = repo.diff_tree_to_tree(old.as_ref(), new.as_ref(), None) {
        let _ = diff.print(git2::DiffFormat::Patch, |_, _, line| {
            pieces.push((line.origin(), line.content().to_vec()));
            true
        });
    }
    app.keep_diff(source::commit_diff_lines(&pieces));
}

/// Run a job of the screen to its end.
fn perform(app: &mut App, repo: &Repository, first: (Job, Want)) {
    let (mut job, mut want) = first;
    loop {
        let news = match want {
            Want::Nothing => return,
            Want::Reload(status) => return reload(app, repo, status),
            Want::Stack { base, head } => News::Stack(walk(repo, recipe::stack(base, head))),
            Want::Range { base, tip } => News::Stack(walk(repo, git::linear_commits(base, tip))),
            Want::Commit(c) => {
                News::Commit(repo.find_commit(raw(c)).ok().map(|c| info(&c)))
            }
            Want::Status => News::Statuses(statuses(repo)),
            Want::Branch => News::Branch(head_branch(repo)),
            Want::Request { rev, clean: true } => News::Request(clean_request(repo, &rev.hex())),
            Want::Request { rev, clean: false } => News::Request(request(repo, &rev.hex())),
            Want::Recipe { source, folds } => {
                News::Recipe(fold(repo, Folding::new(source, folds)))
            }
            Want::Move { path, target, head } => {
                News::Plan(plan_move(repo, recipe::mv(&path, target, head)))
            }
            Want::Reword { rev, head, message } => {
                News::Plan(ask(repo, |seen| recipe::reword(seen, rev, head, &message)))
            }
            Want::Weave(w) => News::Woven(ask(repo, |seen| w.next(seen))),
            Want::Rewrite(r) => News::Outcome(rewrite(repo, r)),
            Want::Promote(p) => News::Promoted(promote(repo, &p)),
            Want::Refresh { tip, paths } => {
                News::Refreshed(refresh_index(repo, tip, &paths).err().map(|e| e.to_string()))
            }
        };
        (job, want) = app.go_on(job, news);
    }
}

fn preview(app: &mut App, repo: &Repository) {
    let first = app.preview();
    perform(app, repo, first);
}

fn execute(app: &mut App, repo: &Repository) {
    let first = app.execute();
    perform(app, repo, first);
}

fn submit_prompt(app: &mut App, repo: &Repository) {
    let first = app.submit_prompt();
    perform(app, repo, first);
}

// ── drawing ─────────────────────────────────────────────────────────────────

/// One palette, so the same kind of thing always looks the same. Chrome is dimmed, not
/// coloured: it stays legible on a dark terminal and on a light one.
fn style(tone: Tone) -> Style {
    let plain = Style::default();
    match tone {
        Tone::Plain => plain,
        Tone::Dim => plain.add_modifier(Modifier::DIM),
        Tone::Oid => plain.fg(Color::Yellow),
        Tone::Path => plain.fg(Color::Cyan).add_modifier(Modifier::BOLD),
        Tone::Dest => plain.fg(Color::Magenta),
        Tone::Added => plain.fg(Color::Green),
        Tone::Removed => plain.fg(Color::Red),
        Tone::Armed => plain.fg(Color::Yellow).add_modifier(Modifier::BOLD),
        Tone::Bad => plain.fg(Color::Red).add_modifier(Modifier::BOLD),
        Tone::Good => plain.fg(Color::Green).add_modifier(Modifier::BOLD),
    }
}

fn styled(all: Vec<Line>) -> Vec<text::Line<'static>> {
    all.into_iter()
        .map(|l| {
            text::Line::from(
                l.spans.into_iter().map(|(tone, s)| Span::styled(s, style(tone))).collect::<Vec<_>>(),
            )
        })
        .collect()
}

fn block(title: String, focused: bool) -> Block<'static> {
    let border = if focused { style(Tone::Path) } else { style(Tone::Dim) };
    Block::default().borders(Borders::ALL).title(title).border_style(border)
}

fn draw_list(f: &mut Frame, v: ListView, highlight: Modifier, area: Rect) {
    let items: Vec<ListItem> = v.items.into_iter().map(|i| ListItem::new(styled(i))).collect();
    let list = List::new(items)
        .block(block(v.title, v.focused))
        .highlight_symbol("▶ ")
        .highlight_style(Style::default().add_modifier(highlight));
    let mut state = ListState::default();
    state.select(v.selected);
    f.render_stateful_widget(list, area, &mut state);
}

fn draw_text(f: &mut Frame, v: TextView, area: Rect) {
    let text = Paragraph::new(styled(v.lines)).scroll((v.scroll, 0));
    f.render_widget(text.block(block(v.title, v.focused)), area);
}

/// The hunk rows are multi-line: reversed they would be a heavy block.
fn draw_hunks(f: &mut Frame, app: &App, area: Rect) {
    draw_list(f, app.render_hunks(area.width >= 80), Modifier::BOLD, area);
}

fn draw_help(f: &mut Frame, app: &App) {
    let (title, rows) = app.render_help();
    let screen = f.area();
    assert!(screen.x.checked_add(screen.width).is_some(), "the screen is too wide");
    assert!(screen.y.checked_add(screen.height).is_some(), "the screen is too high");
    let at = view::help_area(
        rows.len(),
        Area { x: screen.x, y: screen.y, width: screen.width, height: screen.height },
    );
    let rect = Rect { x: at.x, y: at.y, width: at.width, height: at.height };
    f.render_widget(Clear, rect);
    f.render_widget(Paragraph::new(styled(rows)).block(block(title, true)), rect);
}

/// Draw the whole screen.
fn ui(f: &mut Frame, app: &App) {
    let rows = Layout::default()
        .direction(Direction::Vertical)
        .constraints([Constraint::Min(3), Constraint::Length(4)])
        .split(f.area());
    let cols = Layout::default()
        .direction(Direction::Horizontal)
        .constraints([Constraint::Min(32), Constraint::Percentage(70)])
        .split(rows[0]);
    draw_list(f, app.render_commits(), Modifier::REVERSED, cols[0]);
    let halves = Layout::default()
        .direction(Direction::Vertical)
        .constraints([Constraint::Percentage(50), Constraint::Percentage(50)])
        .split(cols[1]);
    match app.column() {
        Column::Diff => draw_text(f, app.render_commit_diff(), cols[1]),
        Column::Hunks => draw_hunks(f, app, cols[1]),
        Column::HunksAndDiff => {
            draw_hunks(f, app, halves[0]);
            draw_text(f, app.render_commit_diff(), halves[1]);
        }
        Column::FilesAndDiff => {
            draw_list(f, app.render_move(), Modifier::REVERSED, halves[0]);
            draw_text(f, app.render_commit_diff(), halves[1]);
        }
    }
    let status = Paragraph::new(styled(app.render_status())).wrap(Wrap { trim: false });
    f.render_widget(status, rows[1]);
    if app.help {
        draw_help(f, app);
    }
}

// ── repositories to work in ─────────────────────────────────────────────────

struct TestRepo {
    dir: String,
    repo: Repository,
}

/// Hardly two of these are ever the same.
fn fresh_name() -> String {
    let now = std::time::SystemTime::now().duration_since(std::time::UNIX_EPOCH).unwrap();
    let here = Box::new(0u8);
    format!("/tmp/git-transplant-{}-{:p}", now.as_nanos(), here)
}

impl TestRepo {
    fn new() -> Self {
        let dir = fresh_name();
        let repo = Repository::init(&dir).unwrap();
        let mut cfg = repo.config().unwrap();
        cfg.set_str("user.name", "test").unwrap();
        cfg.set_str("user.email", "test@test").unwrap();
        TestRepo { dir, repo }
    }

    /// Put `content` at `path` under `root`, and leave the index alone.
    fn write_in(&self, root: &str, path: &str, content: impl AsRef<[u8]>) {
        let scratch = Repository::init(format!("{}-scratch", self.dir)).unwrap();
        scratch.set_workdir(Path::new(root), false).unwrap();
        let blob = scratch.blob(content.as_ref()).unwrap();
        let mut idx = git2::Index::new().unwrap();
        idx.add(&index_entry(path, blob, 0o100644)).unwrap();
        let mut co = CheckoutBuilder::new();
        co.force().update_index(false).disable_pathspec_match(true).path(path);
        scratch.checkout_index(Some(&mut idx), Some(&mut co)).unwrap();
    }

    /// Write a file in the worktree WITHOUT staging it.
    fn dirty(&self, path: &str, content: impl AsRef<[u8]>) {
        self.write_in(&self.dir, path, content);
    }

    fn disk(&self, path: &str) -> String {
        let full = format!("{}/{path}", self.dir);
        String::from_utf8(on_disk(&self.repo, Path::new(&full)).unwrap()).unwrap()
    }

    fn put(&self, path: &str, content: &str, mode: u32) {
        let blob = self.repo.blob(content.as_bytes()).unwrap();
        let mut idx = self.repo.index().unwrap();
        idx.add(&index_entry(path, blob, mode)).unwrap();
        idx.write().unwrap();
        let mut co = CheckoutBuilder::new();
        co.force().disable_pathspec_match(true).path(path);
        self.repo.checkout_index(Some(&mut idx), Some(&mut co)).unwrap();
    }

    /// Write files and stage them.
    fn stage(&self, files: &[(&str, &str)]) {
        for (path, content) in files {
            self.put(path, content, 0o100644);
        }
    }

    fn commit_staged(&self, msg: &str) -> Oid {
        let mut index = self.repo.index().unwrap();
        let tree = self.repo.find_tree(index.write_tree().unwrap()).unwrap();
        let sig = self.repo.signature().unwrap();
        let parent = self.repo.head().ok().map(|h| h.peel_to_commit().unwrap());
        let parents: Vec<&git2::Commit> = parent.iter().collect();
        oid(self.repo.commit(Some("HEAD"), &sig, &sig, msg, &tree, &parents).unwrap())
    }

    /// Write files, stage them, and commit.
    fn commit(&self, msg: &str, files: &[(&str, &str)]) -> Oid {
        self.stage(files);
        self.commit_staged(msg)
    }

    /// Commit a single executable file.
    fn commit_exec(&self, msg: &str, path: &str, content: &str) -> Oid {
        self.put(path, content, 0o100755);
        self.commit_staged(msg)
    }

    /// Commit the removal of a file.
    fn commit_removing(&self, msg: &str, path: &str) -> Oid {
        let mut idx = self.repo.index().unwrap();
        idx.remove_path(Path::new(path)).unwrap();
        idx.write().unwrap();
        let c = self.commit_staged(msg);
        let mut co = CheckoutBuilder::new();
        co.force().remove_untracked(true).disable_pathspec_match(true).path(path);
        self.repo.checkout_head(Some(&mut co)).unwrap();
        c
    }

    /// A commit that no ref names, with the tree of `like`.
    fn dangling(&self, msg: &str, like: Oid, parents: &[Oid]) -> Oid {
        let sig = self.repo.signature().unwrap();
        let tree = self.repo.find_commit(raw(like)).unwrap().tree().unwrap();
        let parents: Vec<git2::Commit> =
            parents.iter().map(|p| self.repo.find_commit(raw(*p)).unwrap()).collect();
        let refs: Vec<&git2::Commit> = parents.iter().collect();
        oid(self.repo.commit(None, &sig, &sig, msg, &tree, &refs).unwrap())
    }

    /// A commit that no ref names, which puts `content` at `path` on top of `parent`.
    fn dangling_edit(&self, parent: Oid, path: &str, content: &str) -> Oid {
        let c = self.repo.find_commit(raw(parent)).unwrap();
        let blob = self.repo.blob(content.as_bytes()).unwrap();
        let mut tb = self.repo.treebuilder(Some(&c.tree().unwrap())).unwrap();
        tb.insert(path, blob, 0o100644).unwrap();
        let tree = self.repo.find_tree(tb.write().unwrap()).unwrap();
        let sig = self.repo.signature().unwrap();
        oid(self.repo.commit(None, &sig, &sig, "synth", &tree, &[&c]).unwrap())
    }

    /// Merge `other` into HEAD, which is at `ours`, keeping `ours`'s tree.
    fn merge_onto_head(&self, msg: &str, ours: Oid, other: Oid) -> Oid {
        let sig = self.repo.signature().unwrap();
        let ours = self.repo.find_commit(raw(ours)).unwrap();
        let other = self.repo.find_commit(raw(other)).unwrap();
        let tree = ours.tree().unwrap();
        oid(self.repo.commit(Some("HEAD"), &sig, &sig, msg, &tree, &[&ours, &other]).unwrap())
    }

    fn head(&self) -> Oid {
        oid(self.repo.head().unwrap().peel_to_commit().unwrap().id())
    }

    fn branch_oid(&self) -> Oid {
        oid(self.repo.head().unwrap().target().unwrap())
    }

    fn reflog_len(&self) -> usize {
        let name = self.repo.head().unwrap().name().unwrap().to_string();
        self.repo.reflog(&name).map(|r| r.len()).unwrap_or(0)
    }

    /// The mode of `path` at a commit.
    fn mode_at(&self, c: Oid, path: &str) -> Option<i32> {
        let tree = self.repo.find_commit(raw(c)).unwrap().tree().unwrap();
        tree.get_path(Path::new(path)).ok().map(|e| e.filemode())
    }

    /// Content of `path` at a commit, or None if absent.
    fn read_at(&self, c: Oid, path: &str) -> Option<String> {
        let tree = self.repo.find_commit(raw(c)).unwrap().tree().unwrap();
        let entry = tree.get_path(Path::new(path)).ok()?;
        let obj = entry.to_object(&self.repo).unwrap();
        Some(String::from_utf8(obj.as_blob().unwrap().content().to_vec()).unwrap())
    }

    /// nth ancestor via first parent (0 = itself).
    fn nth_parent(&self, c: Oid, n: usize) -> Oid {
        let mut c = self.repo.find_commit(raw(c)).unwrap();
        for _ in 0..n {
            c = c.parent(0).unwrap();
        }
        oid(c.id())
    }

    /// Does the INDEX differ from HEAD at `path`?
    fn is_staged(&self, path: &str) -> bool {
        let mut opts = git2::StatusOptions::new();
        opts.include_untracked(true);
        self.repo.statuses(Some(&mut opts)).unwrap().iter().any(|e| {
            e.path() == Some(path)
                && (e.status().is_index_modified()
                    || e.status().is_index_new()
                    || e.status().is_index_deleted())
        })
    }

    /// Number of commits reachable from HEAD via first parents.
    fn commit_count(&self) -> usize {
        let mut n = 1;
        let mut c = self.repo.head().unwrap().peel_to_commit().unwrap();
        while let Ok(p) = c.parent(0) {
            n += 1;
            c = p;
        }
        n
    }

    /// Are worktree and index clean against HEAD?
    fn is_clean(&self) -> bool {
        let mut opts = git2::StatusOptions::new();
        opts.include_untracked(false);
        self.repo.statuses(Some(&mut opts)).unwrap().is_empty()
    }
}

const V1: &str = "fn main() {\n    let value = 1;\n    println!(\"{}\", value);\n}\n";
const V2: &str = "fn main() {\n    let value = 42;\n    println!(\"{}\", value);\n}\n";
const HELPER: &str = "\nfn helper() {}\n";
const OTHER: &str = "\nfn other() {}\n";

fn cat(parts: &[&str]) -> String {
    parts.concat()
}

fn lines(prefix: &str, n: usize) -> String {
    (1..=n).map(|i| format!("{prefix}{i}\n")).collect()
}

fn edit(base: &str, changes: &[(usize, &str)]) -> String {
    let mut v: Vec<String> = base.split_inclusive('\n').map(String::from).collect();
    for (i, s) in changes {
        v[*i] = format!("{s}\n");
    }
    v.concat()
}

/// c1 owns lines 1-8, c2 owns 9-16, c3 owns line 17.
fn owned_stack(t: &TestRepo) -> (Oid, Oid, Oid) {
    let a = lines("a", 8);
    let c1 = t.commit("c1", &[("src.rs", &a)]);
    let ab = format!("{a}{}", lines("b", 8));
    let c2 = t.commit("c2", &[("src.rs", &ab)]);
    let c3 = t.commit("c3", &[("src.rs", &format!("{ab}c1\n"))]);
    (c1, c2, c3)
}

/// Three commits, each adding its own file — independent, so any order works.
fn independent(t: &TestRepo) -> (Oid, Oid, Oid) {
    let c1 = t.commit("c1", &[("a.txt", "1\n")]);
    let c2 = t.commit("c2", &[("b.txt", "2\n")]);
    let c3 = t.commit("c3", &[("c.txt", "3\n")]);
    (c1, c2, c3)
}

/// Three commits all rewriting the SAME single line — nothing here commutes.
fn chained(t: &TestRepo) -> (Oid, Oid, Oid) {
    let c1 = t.commit("c1", &[("a.txt", "one\n")]);
    let c2 = t.commit("c2", &[("a.txt", "two\n")]);
    let c3 = t.commit("c3", &[("a.txt", "three\n")]);
    (c1, c2, c3)
}

/// Three commits that build on one another.
fn stack(t: &TestRepo) -> (Oid, Oid, Oid) {
    let c1 = t.commit("c1", &[("a.txt", "1\n")]);
    let c2 = t.commit("c2", &[("a.txt", "1\n"), ("b.txt", "x\n")]);
    let c3 = t.commit("c3", &[("a.txt", "1\n"), ("b.txt", "x\n"), ("c.txt", "y\n")]);
    (c1, c2, c3)
}

/// `fix` with one staged hunk: where the undo tests start.
fn fixed(t: &TestRepo) -> Outcome {
    let c1 = t.commit("c1", &[("src.rs", V1)]);
    t.commit("c2", &[("src.rs", &format!("{V1}{HELPER}"))]);
    t.stage(&[("src.rs", &format!("{V2}{HELPER}"))]);
    fix(&t.repo, &c1.hex(), &Opts::default()).unwrap()
}

fn favoring(favor: FileFavor) -> Opts {
    Opts { favor: Some(favor), ..Opts::default() }
}

/// Everything a failed operation must leave exactly as it found it.
fn snapshot(t: &TestRepo) -> (Oid, usize) {
    (t.branch_oid(), t.reflog_len())
}

fn summary(t: &TestRepo, c: Oid) -> String {
    t.repo.find_commit(raw(c)).unwrap().summary().unwrap_or("").to_string()
}

fn message(t: &TestRepo, c: Oid) -> String {
    t.repo.find_commit(raw(c)).unwrap().message().unwrap_or("").to_string()
}

fn branch_at(t: &TestRepo, name: &str, c: Oid) {
    t.repo.reference(&format!("refs/heads/{name}"), raw(c), false, "test").unwrap();
}

fn oid_of(t: &TestRepo, name: &str) -> Oid {
    oid(t.repo.refname_to_id(&format!("refs/heads/{name}")).unwrap())
}

fn run_replay(repo: &Repository, mut r: Replaying) -> Result<Replay, Error> {
    loop {
        match r.next() {
            Ask::Need(q) => {
                let a = look(repo, &q);
                r.answer(q, a);
            }
            Ask::Fail(e) => return Err(e),
            Ask::Have(done) => return Ok(done),
        }
    }
}

fn replay(
    repo: &Repository,
    base: Option<Oid>,
    tip: Oid,
    recipe: Recipe,
    drop_empty: bool,
) -> Result<Replay, Error> {
    let ids = walk(repo, git::linear_commits(base, tip))?.ids();
    run_replay(repo, engine::replay_opts(base, tip, ids, recipe, Merge::from(false), drop_empty))
}

fn replay_order(
    repo: &Repository,
    base: Option<Oid>,
    tip: Oid,
    order: Vec<Oid>,
    recipe: Recipe,
    drop_empty: bool,
) -> Result<Replay, Error> {
    let ids = walk(repo, git::linear_commits(base, tip))?.ids();
    run_replay(
        repo,
        Replaying::new(base, tip, ids, order, recipe, Merge::from(false), drop_empty),
    )
}

fn infer_targets(
    repo: &Repository,
    path: &str,
    old: &str,
    hunks: &Vec<Hunk>,
    window: &Vec<Oid>,
) -> Vec<Option<Oid>> {
    inference::infer_targets(&owners(repo, path, old.as_bytes()).unwrap(), hunks, window)
}

fn synthetic(
    repo: &Repository,
    source: Oid,
    path: &str,
    old: &str,
    hunks: &Vec<Hunk>,
    selected: &Vec<bool>,
    mode: i32,
) -> Oid {
    ask(repo, |seen| patch::synthetic_for_hunks(seen, source, path, old, hunks, selected, mode))
        .unwrap()
}

// ── screens to look at ──────────────────────────────────────────────────────

fn fake(b: u8) -> Oid {
    Oid::from_bytes(&[b; 20]).unwrap()
}

/// A screen with `n_commits` commits and one file of `n_hunks` hunks.
fn app(n_commits: usize, n_hunks: usize) -> App {
    let commits = (0..n_commits)
        .map(|i| CommitRow {
            oid: fake(i as u8 + 1),
            summary: format!("c{i}"),
            diff: None,
            refs: Vec::new(),
            signed: false,
        })
        .collect();
    let mut files = Vec::new();
    if n_hunks > 0 {
        files.push(FileEntry {
            path: "f.rs".into(),
            old_full: String::new(),
            hunks: Vec::new(),
            selected: vec![true; n_hunks],
            targets: vec![None; n_hunks],
            inferred: vec![Some(fake(1)); n_hunks],
            mode: 0o100644,
        });
    }
    let counts: Vec<usize> = files.iter().map(|f| f.selected.len()).collect();
    App {
        branch: "refs/heads/main".into(),
        head: fake(9),
        opts: Opts::default(),
        base: None,
        commits,
        files,
        flat: flatten(&counts),
        move_files: vec!["a.txt".into(), "src/b.rs".into()],
        focus: Pane::Commits,
        commit_cursor: 0,
        hunk_cursor: 0,
        move_cursor: 0,
        move_target: None,
        status: String::new(),
        applied: false,
        pending_apply: false,
        pending_quit: false,
        filter: String::new(),
        tree_dirty: false,
        skipped: Vec::new(),
        diff_scroll: 0,
        source: Source::Staged,
        source_base: fake(9),
        shape: Shape::Unchanged,
        input: None,
        phantom_cursor: false,
        help: false,
    }
}


/// Draw the screen at a terminal size and return the visible text.
fn render_at(app: &App, w: u16, h: u16) -> String {
    let backend = ratatui::backend::TestBackend::new(w, h);
    let mut terminal = ratatui::Terminal::new(backend).unwrap();
    terminal.draw(|f| ui(f, app)).unwrap();
    let buf = terminal.backend().buffer().clone();
    buf.content().iter().map(|c| c.symbol()).collect()
}

fn render_to_text(app: &App) -> String {
    render_at(app, 120, 30)
}

/// A 2-commit repo (c1: l1..l8, c2: +extra) with a staged edit to line 2.
fn staged_fixture() -> TestRepo {
    let t = TestRepo::new();
    let l8 = lines("l", 8);
    t.commit("c1", &[("f.rs", &l8)]);
    let c2 = format!("{l8}extra\n");
    t.commit("c2", &[("f.rs", &c2)]);
    t.stage(&[("f.rs", &edit(&c2, &[(1, "L2")]))]);
    t
}

fn reset_hard(t: &TestRepo) {
    let head = t.repo.head().unwrap().peel_to_commit().unwrap();
    t.repo.reset(head.as_object(), git2::ResetType::Hard, None).unwrap();
}

/// A repo whose only staged change is a brand-new file.
fn added_file_fixture() -> TestRepo {
    let t = staged_fixture();
    reset_hard(&t);
    t.stage(&[("brand_new.rs", "fn added() {}\n")]);
    t
}

/// Two files, two separated hunks each: 4 hunks with different owners.
fn multi_hunk_fixture() -> TestRepo {
    let t = TestRepo::new();
    let (a, b) = (lines("a", 30), lines("b", 30));
    t.commit("c1 adds a.rs", &[("a.rs", &a)]);
    t.commit("c2 adds b.rs", &[("b.rs", &b)]);
    let a2 = edit(&a, &[(1, "EDITED-a2"), (20, "EDITED-a21")]);
    let b2 = edit(&b, &[(3, "EDITED-b4"), (25, "EDITED-b26")]);
    for (old, new) in [(&a, &a2), (&b, &b2)] {
        assert_eq!(patch::hunks(old.as_bytes(), new.as_bytes()).unwrap().len(), 2);
    }
    t.stage(&[("a.rs", &a2), ("b.rs", &b2)]);
    t
}

/// A 30-line base, then one commit making TWO distant edits to it.
fn two_hunk_commit_fixture() -> TestRepo {
    let t = TestRepo::new();
    let base = lines("l", 30);
    t.commit("c1 base", &[("f.rs", &base)]);
    let two = edit(&base, &[(1, "FIRST-EDIT"), (19, "SECOND-EDIT")]);
    t.commit("c2 two unrelated edits", &[("f.rs", &two)]);
    t
}

/// Four commits, each adding its own file. No staged changes.
fn stack4() -> TestRepo {
    let t = TestRepo::new();
    for i in 1..=4 {
        let body = lines(&format!("f{i}line"), 12);
        t.commit(&format!("c{i}"), &[(&format!("f{i}.rs"), &body)]);
    }
    t
}

/// `n` commits, each adding its own file, so every order commutes.
fn tall_fixture(n: usize) -> TestRepo {
    let t = TestRepo::new();
    for i in 0..n {
        t.commit(&format!("c{i}"), &[(&format!("f{i}.txt"), &format!("{i}\n"))]);
    }
    t
}

/// Three commits that rewrite the SAME line, so the middle one cannot be dropped
/// without a real conflict.
fn conflicting_fixture() -> TestRepo {
    let t = staged_fixture();
    for (text, msg) in [("one\n", "c3"), ("two\n", "c4"), ("three\n", "c5")] {
        t.commit(msg, &[("f.rs", text)]);
    }
    t
}

/// c1 writes a line, c2 reindents it, and a value fix for that line is staged.
fn reindent_fixture() -> TestRepo {
    let t = TestRepo::new();
    t.commit("c1", &[("f.rs", "fn f() {\n    let x = 1;\n}\n")]);
    t.commit("c2 reindent", &[("f.rs", "fn f() {\n        let x = 1;\n}\n")]);
    t.stage(&[("f.rs", "fn f() {\n        let x = 2;\n}\n")]);
    t
}

// ── absorb ──

#[test]
fn absorb_distributes_hunks_to_owning_commits() {
    let t = TestRepo::new();
    let (_c1, _c2, c3) = owned_stack(&t);
    let head_src = t.read_at(c3, "src.rs").unwrap();

    let staged = edit(&head_src, &[(1, "A2"), (9, "B2")]);
    t.stage(&[("src.rs", &staged)]);

    let a = collapse(&t.repo, None, &Opts::default()).unwrap();
    let out = a.outcome.expect("something absorbed");
    assert_eq!((a.folded, a.orphans), (2, 0));

    let c1p = t.nth_parent(out.new_tip, 2);
    let c2p = t.nth_parent(out.new_tip, 1);
    let c1_txt = t.read_at(c1p, "src.rs").unwrap();
    let c2_txt = t.read_at(c2p, "src.rs").unwrap();
    let head_txt = t.read_at(out.new_tip, "src.rs").unwrap();

    assert!(c1_txt.contains("A2\n"), "line-2 fix landed in its owner c1");
    assert!(!c1_txt.contains("B2\n"), "line-10 fix did NOT leak into c1");
    assert!(c2_txt.contains("B2\n"), "line-10 fix landed in its owner c2");
    assert!(head_txt.contains("A2\n") && head_txt.contains("B2\n"), "both carried to tip");
    assert!(t.is_clean(), "worktree + index clean after absorb");
}

#[test]
fn absorb_works_for_nested_paths() {
    let t = TestRepo::new();
    let a = lines("a", 8);
    let c1 = t.commit("c1", &[("src/app.rs", &a)]);
    let ab = format!("{a}{}", lines("b", 8));
    let _c2 = t.commit("c2", &[("src/app.rs", &ab)]);
    let c3 = t.commit("c3", &[("src/app.rs", &format!("{ab}tail\n"))]);

    let head_src = t.read_at(c3, "src/app.rs").unwrap();
    let staged = edit(&head_src, &[(1, "A2")]); // line 2, owned by c1
    t.stage(&[("src/app.rs", &staged)]);

    let a = collapse(&t.repo, None, &Opts::default()).unwrap();
    let out = a.outcome.expect("nested-path hunk absorbed");
    assert_eq!((a.folded, a.orphans), (1, 0));
    let c1p = t.nth_parent(out.new_tip, 2);
    assert!(t.read_at(c1p, "src/app.rs").unwrap().contains("A2\n"));
    let _ = c1;
}

#[test]
fn absorb_leaves_orphan_hunks_outside_window() {
    let t = TestRepo::new();
    let (_c1, c2, c3) = owned_stack(&t);
    let head_src = t.read_at(c3, "src.rs").unwrap();

    let staged = edit(&head_src, &[(1, "A2")]);
    t.stage(&[("src.rs", &staged)]);
    let before = t.branch_oid();

    let a = collapse(&t.repo, Some(c2), &Opts::default()).unwrap();
    assert!(a.outcome.is_none(), "nothing had a home in the window");
    assert_eq!((a.folded, a.orphans), (0, 1));
    assert_eq!(t.branch_oid(), before, "branch untouched when nothing absorbs");
}

// ── dry runs and undo ──

#[test]
fn dry_run_fix_predicts_the_real_tip_and_moves_nothing() {
    let t = TestRepo::new();
    let c1 = t.commit("c1", &[("src.rs", V1)]);
    let _c2 = t.commit("c2", &[("src.rs", &format!("{V1}{HELPER}"))]);
    t.stage(&[("src.rs", &format!("{V2}{HELPER}"))]);

    let (before, reflog_before) = (t.branch_oid(), t.reflog_len());
    let dry = fix(&t.repo, &c1.hex(), &Opts { dry_run: true, ..Opts::default() }).unwrap();
    assert_eq!(t.branch_oid(), before, "dry run must not move the branch");
    assert_eq!(t.reflog_len(), reflog_before, "dry run must not write a reflog entry");

    let real = fix(&t.repo, &c1.hex(), &Opts::default()).unwrap();
    assert_eq!(dry.new_tip, real.new_tip, "the preview was the real run, minus the ref move");
    assert_eq!(dry.old_tip, real.old_tip);
    assert_ne!(t.branch_oid(), before, "the real run does move it");
}

#[test]
fn dry_run_move_file_predicts_the_real_tip_and_moves_nothing() {
    let t = TestRepo::new();
    let c1 = t.commit("c1", &[("a.txt", "a\n")]);
    let _c2 = t.commit("c2", &[("a.txt", "a\n"), ("feature.txt", "f\n")]);

    let (before, reflog_before) = (t.branch_oid(), t.reflog_len());
    let dry = mv(&t.repo, "feature.txt", &c1.hex(), &Opts { dry_run: true, ..Opts::default() }).unwrap();
    assert_eq!(t.branch_oid(), before);
    assert_eq!(t.reflog_len(), reflog_before);

    let real = mv(&t.repo, "feature.txt", &c1.hex(), &Opts::default()).unwrap();
    assert_eq!(dry.new_tip, real.new_tip);
}

#[test]
fn dry_run_absorb_reports_the_routing_table_without_rewriting() {
    let t = TestRepo::new();
    let a = lines("a", 8);
    let c1 = t.commit("c1", &[("src.rs", &a)]);
    let ab = format!("{a}{}", lines("b", 8));
    let c2 = t.commit("c2", &[("src.rs", &ab)]);
    let staged = ab.replace("a2\n", "A2\n").replace("b2\n", "B2\n");
    t.stage(&[("src.rs", &staged)]);

    let (before, reflog_before) = (t.branch_oid(), t.reflog_len());
    let dry = collapse(&t.repo, None, &Opts { dry_run: true, ..Opts::default() }).unwrap();
    assert_eq!(t.branch_oid(), before, "dry run must not move the branch");
    assert_eq!(t.reflog_len(), reflog_before, "dry run must not write a reflog entry");
    assert_eq!((dry.folded, dry.orphans), (2, 0));

    let targets: Vec<_> = dry.routes.iter().map(|(_, _, oid)| *oid).collect();
    assert_eq!(targets, vec![c1, c2], "each hunk routed to the commit that owns it");
    assert!(dry.routes.iter().all(|(p, h, _)| p == "src.rs" && h.starts_with("@@")));

    let real = collapse(&t.repo, None, &Opts::default()).unwrap();
    assert_eq!(
        dry.outcome.unwrap().new_tip,
        real.outcome.unwrap().new_tip,
        "the preview was the real run, minus the ref move"
    );
}

#[test]
fn undo_restores_the_previous_tip() {
    let t = TestRepo::new();
    let out = fixed(&t);

    let dry = undo(&t.repo, true).unwrap();
    assert_eq!(dry.new_tip, out.old_tip);
    assert_eq!(t.branch_oid(), out.new_tip, "dry-run undo leaves the branch alone");

    let u = undo(&t.repo, false).unwrap();
    assert_eq!(u.new_tip, out.old_tip, "restored to the pre-transplant tip");
    assert_eq!(t.branch_oid(), out.old_tip);
    let on_disk = t.disk("src.rs");
    assert_eq!(on_disk, format!("{V2}{HELPER}"), "undo must not touch the worktree");
    assert!(!t.is_clean(), "the undone change resurfaces as uncommitted");
}

#[test]
fn undo_of_an_undo_is_a_redo() {
    let t = TestRepo::new();
    let out = fixed(&t);
    undo(&t.repo, false).unwrap();
    let redo = undo(&t.repo, false).unwrap();
    assert_eq!(redo.new_tip, out.new_tip);
    assert_eq!(t.branch_oid(), out.new_tip);
}

#[test]
fn undo_refuses_when_the_branch_moved_since() {
    let t = TestRepo::new();
    let _out = fixed(&t);
    let moved = t.commit("c3", &[("other.txt", "o\n")]);

    match undo(&t.repo, false) {
        Err(Error::Empty(m)) => assert!(m.contains("has moved since"), "got: {m}"),
        other => panic!("expected a refusal, got {other:?}"),
    }
    assert_eq!(t.branch_oid(), moved, "branch untouched by the refused undo");
}

#[test]
fn undo_without_a_transplant_entry_says_so() {
    let t = TestRepo::new();
    t.commit("c1", &[("src.rs", V1)]);
    t.commit("c2", &[("src.rs", &format!("{V1}{HELPER}"))]);

    match undo(&t.repo, false) {
        Err(Error::Empty(m)) => assert!(m.contains("nothing to undo"), "got: {m}"),
        other => panic!("expected a clear error, got {other:?}"),
    }
}

// ── conflict rules ──

#[test]
fn without_a_rule_the_conflict_still_aborts() {
    let t = TestRepo::new();
    let (_c1, c2, _c3) = chained(&t);
    let before = (t.branch_oid(), t.reflog_len());

    let err = drop_commit(&t.repo, &c2.hex(), &Opts::default()).unwrap_err();

    assert!(matches!(err, Error::Conflict { .. }), "got {err:?}");
    assert_eq!((t.branch_oid(), t.reflog_len()), before);
}

#[test]
fn theirs_keeps_the_change_being_applied() {
    let t = TestRepo::new();
    let (_c1, c2, _c3) = chained(&t);

    let out = drop_commit(&t.repo, &c2.hex(), &favoring(FileFavor::Theirs)).unwrap();

    assert_eq!(t.read_at(out.new_tip, "a.txt").as_deref(), Some("three\n"));
    assert_eq!(t.commit_count(), 2, "c2 is gone and c3 survived the conflict");
}

#[test]
fn ours_keeps_the_stack_being_replayed_onto() {
    let t = TestRepo::new();
    let (_c1, c2, _c3) = chained(&t);

    let out = drop_commit(&t.repo, &c2.hex(), &favoring(FileFavor::Ours)).unwrap();

    assert_eq!(t.read_at(out.new_tip, "a.txt").as_deref(), Some("one\n"));
}

#[test]
fn union_keeps_both_sides_without_markers() {
    let t = TestRepo::new();
    let (_c1, c2, _c3) = chained(&t);

    let out = drop_commit(&t.repo, &c2.hex(), &favoring(FileFavor::Union)).unwrap();

    let text = t.read_at(out.new_tip, "a.txt").unwrap();
    assert!(text.contains("one\n") && text.contains("three\n"), "both sides kept: {text:?}");
    assert!(!text.contains("<<<<"), "and no conflict markers: {text:?}");
}

#[test]
fn theirs_resolves_a_fix_that_would_otherwise_abort() {
    let t = TestRepo::new();
    let c1 = t.commit("c1", &[("config.txt", "v=1\n")]);
    let _c2 = t.commit("c2", &[("config.txt", "v=2\n")]);
    t.stage(&[("config.txt", "v=3\n")]);

    assert!(fix(&t.repo, &c1.hex(), &Opts::default()).is_err(), "aborts by default");

    let out = fix(&t.repo, &c1.hex(), &favoring(FileFavor::Theirs)).unwrap();

    assert_eq!(t.read_at(t.nth_parent(out.new_tip, 1), "config.txt").as_deref(), Some("v=3\n"));
    assert_eq!(t.commit_count(), 2);
}

#[test]
fn a_rule_does_not_silence_unrelated_failures() {
    let t = TestRepo::new();
    let c1 = t.commit("c1", &[("a.txt", "1\n")]);
    let _c2 = t.commit("c2", &[("a.txt", "2\n")]);
    let before = (t.branch_oid(), t.reflog_len());

    let err = fix(&t.repo, &c1.hex(), &favoring(FileFavor::Theirs)).unwrap_err();

    assert!(matches!(err, Error::NothingStaged), "got {err:?}");
    assert_eq!((t.branch_oid(), t.reflog_len()), before);
}

// ── file modes ──

#[test]
fn move_preserves_executable_bit() {
    let t = TestRepo::new();
    let _c1 = t.commit("c1", &[("readme.md", "hi\n")]);
    let _c2 = t.commit_exec("c2", "build.sh", "#!/bin/sh\necho hi\n");
    let _c3 = t.commit("c3", &[("readme.md", "hello\n")]);
    let c4 = {
        t.commit_exec("c4", "build.sh", "#!/bin/sh\necho hi\n")
    };

    assert_eq!(t.mode_at(c4, "build.sh"), Some(0o100755), "precondition: exec at target");

    let out = mv(&t.repo, "build.sh", &c4.hex(), &Opts::default()).unwrap();
    assert_eq!(
        t.mode_at(out.new_tip, "build.sh"),
        Some(0o100755),
        "move must preserve the executable bit"
    );
}

#[test]
fn an_executable_moved_backward_stays_executable() {
    let t = TestRepo::new();
    let c1 = t.commit("c1", &[("readme.md", "hi\n")]);
    let c2 = t.commit("c2", &[("readme.md", "hello\n")]);
    t.stage(&[("notes.md", "n\n")]);
    t.commit_exec("c3", "build.sh", "#!/bin/sh\necho hi\n");

    let out = mv(&t.repo, "build.sh", &c2.hex(), &Opts::default()).unwrap();

    let c2p = t.nth_parent(out.new_tip, 1);
    assert_eq!(t.mode_at(c2p, "build.sh"), Some(0o100755), "exec at the new anchor");
    assert_eq!(t.mode_at(out.new_tip, "build.sh"), Some(0o100755), "exec at the tip");
    assert_eq!(t.read_at(c1, "build.sh"), None, "still absent before the new anchor");
}

// ── edges of the operations ──

#[test]
fn ignore_whitespace_resolves_a_reindent_adjacent_fix() {
    let t = TestRepo::new();
    let c1 = t.commit("c1", &[("f.rs", "fn f() {\n    let x = 1;\n}\n")]);
    let _c2 = t.commit("c2", &[("f.rs", "fn f() {\n        let x = 1;\n}\n")]);
    t.stage(&[("f.rs", "fn f() {\n        let x = 2;\n}\n")]);

    assert!(
        matches!(fix(&t.repo, &c1.hex(), &Opts::default()), Err(Error::Conflict { .. })),
        "expected a whitespace-adjacent conflict"
    );
    let out = fix(&t.repo, &c1.hex(), &Opts { ignore_ws: true, ..Opts::default() }).expect("ignore-ws should resolve it");
    let c1p = t.nth_parent(out.new_tip, 1);
    let c1_txt = t.read_at(c1p, "f.rs").unwrap();
    assert!(c1_txt.contains("x = 2"), "value fix folded into c1");
    assert!(t.read_at(out.new_tip, "f.rs").unwrap().contains("x = 2"), "carried to the tip");
    assert!(c1_txt.contains("        let x = 2;"), "ignore-ws drags the reindent back: {c1_txt:?}");
}

#[test]
fn absorb_distributes_across_multiple_files() {
    let t = TestRepo::new();
    let _c1 = t.commit("c1", &[("a.txt", &lines("a", 8))]);
    let _c2 = t.commit("c2", &[("a.txt", &lines("a", 8)), ("b.txt", &lines("b", 8))]);
    let c3 = t.commit(
        "c3",
        &[("a.txt", &lines("a", 8)), ("b.txt", &lines("b", 8)), ("c.txt", "marker\n")],
    );

    let a_new = edit(&t.read_at(c3, "a.txt").unwrap(), &[(1, "A2")]); // a.txt line2 -> c1
    let b_new = edit(&t.read_at(c3, "b.txt").unwrap(), &[(1, "B2")]); // b.txt line2 -> c2
    t.stage(&[("a.txt", &a_new), ("b.txt", &b_new)]);

    let a = collapse(&t.repo, None, &Opts::default()).unwrap();
    let out = a.outcome.expect("absorbed");
    assert_eq!((a.folded, a.orphans), (2, 0));
    let c1p = t.nth_parent(out.new_tip, 2);
    let c2p = t.nth_parent(out.new_tip, 1);
    assert!(t.read_at(c1p, "a.txt").unwrap().contains("A2\n"), "a.txt fix -> c1");
    assert!(t.read_at(c2p, "b.txt").unwrap().contains("B2\n"), "b.txt fix -> c2");
    assert!(!t.read_at(c1p, "a.txt").unwrap().contains("B2\n"), "no cross-file leak into c1");
    assert_eq!(t.read_at(c1p, "b.txt"), None, "b.txt does not exist yet at c1");
    assert!(!t.read_at(c2p, "a.txt").unwrap().contains("B2\n"), "b.txt's fix stayed out of a.txt");
    assert!(t.is_clean());
}

#[test]
fn absorb_preserves_orphan_hunks_in_the_worktree() {
    let t = TestRepo::new();
    let _c1 = t.commit("c1", &[("a.txt", &lines("a", 8))]);
    let _c2 = t.commit("c2", &[("a.txt", &lines("a", 8)), ("b.txt", &lines("b", 8))]);
    let c3 = t.commit(
        "c3",
        &[("a.txt", &lines("a", 8)), ("b.txt", &lines("b", 8)), ("c.txt", "m\n")],
    );

    let a_new = edit(&t.read_at(c3, "a.txt").unwrap(), &[(1, "A2")]);
    let b_new = edit(&t.read_at(c3, "b.txt").unwrap(), &[(1, "B2")]);
    t.stage(&[("a.txt", &a_new), ("b.txt", &b_new)]);

    let a = collapse(&t.repo, Some(t.nth_parent(c3, 2)), &Opts::default()).unwrap(); // base = c1
    assert_eq!((a.folded, a.orphans), (1, 1), "b.txt homed, a.txt orphaned");

    let a_disk = t.disk("a.txt");
    assert!(a_disk.contains("A2\n"), "orphan hunk must survive in the worktree, not be wiped");
    assert!(t.is_staged("a.txt"), "and it is still staged against the rewritten HEAD");
    assert!(!t.is_staged("b.txt"), "the absorbed file is no longer staged");
}

#[test]
fn fix_into_head_is_amend_like() {
    let t = TestRepo::new();
    let _c1 = t.commit("c1", &[("a.txt", "1\n")]);
    let c2 = t.commit("c2", &[("a.txt", "1\n"), ("b.txt", "x\n")]);
    t.stage(&[("a.txt", "1\n"), ("b.txt", "y\n")]); // amend b.txt at the tip

    let before = t.commit_count();
    let out = fix(&t.repo, &c2.hex(), &Opts::default()).unwrap();
    assert_eq!(t.read_at(out.new_tip, "b.txt").as_deref(), Some("y\n"));
    assert_eq!(t.commit_count(), before, "amend-like: no commit added");
    assert!(t.is_clean());
}

#[test]
fn fix_rejects_non_ancestor_target() {
    let t = TestRepo::new();
    let c1 = t.commit("c1", &[("a.txt", "1\n")]);
    let _c2 = t.commit("c2", &[("a.txt", "2\n")]); // head
    let sib = t.dangling("sib", c1, &[c1]);
    t.stage(&[("a.txt", "3\n")]);
    assert!(matches!(
        fix(&t.repo, &sib.hex(), &Opts::default()),
        Err(Error::TargetNotAncestor)
    ));
}

#[test]
fn move_target_is_intro_errors() {
    let t = TestRepo::new();
    let _c1 = t.commit("c1", &[("root.txt", "r\n")]);
    let c2 = t.commit("c2", &[("root.txt", "r\n"), ("feature.txt", "f\n")]); // intro == target
    let _c3 = t.commit("c3", &[("root.txt", "r2\n"), ("feature.txt", "f\n")]);
    assert!(matches!(
        mv(&t.repo, "feature.txt", &c2.hex(), &Opts::default()),
        Err(Error::Empty(_))
    ));
}

#[test]
fn absorb_preserves_absent_trailing_newline() {
    let t = TestRepo::new();
    let _c1 = t.commit("c1", &[("f.txt", "one\ntwo\nthree")]); // no trailing newline
    let _c2 = t.commit("c2", &[("f.txt", "one\ntwo\nthree"), ("m.txt", "m\n")]);
    t.stage(&[("f.txt", "one\nTWO\nthree")]); // change line 2, still no trailing newline

    let a = collapse(&t.repo, None, &Opts::default()).unwrap();
    let out = a.outcome.expect("absorbed");
    assert_eq!(
        t.read_at(out.new_tip, "f.txt").as_deref(),
        Some("one\nTWO\nthree"),
        "no spurious trailing newline introduced"
    );
}

#[test]
fn fix_warns_about_abandoned_branch_only_with_no_restack() {
    let t = TestRepo::new();
    let c1 = t.commit("c1", &[("a.txt", "1\n")]);
    let c2 = t.commit("c2", &[("a.txt", "1\n"), ("b.txt", "x\n")]); // head
    t.repo.reference("refs/heads/feature", raw(c2), false, "create").unwrap();
    t.stage(&[("a.txt", "1-fixed\n"), ("b.txt", "x\n")]);

    let opts = Opts { no_restack: true, ..Opts::default() };
    let out = fix(&t.repo, &c1.hex(), &opts).unwrap();
    assert!(
        out.warnings.iter().any(|w| w.contains("feature")),
        "should warn that refs/heads/feature is now orphaned, got {:?}",
        out.warnings
    );
    assert!(out.restacked.is_empty(), "--no-restack must move nothing");
    assert_eq!(
        oid(t.repo.refname_to_id("refs/heads/feature").unwrap()),
        c2,
        "sibling left exactly where it was"
    );
}

#[test]
fn move_handles_nested_paths() {
    let t = TestRepo::new();
    let _c1 = t.commit("c1", &[("readme", "hi\n")]);
    let _c2 = t.commit("c2", &[("readme", "hi\n"), ("src/lib.rs", "code\n")]);
    let c3 = t.commit("c3", &[("readme", "ho\n"), ("src/lib.rs", "code\n")]);

    let out = mv(&t.repo, "src/lib.rs", &c3.hex(), &Opts::default()).unwrap();
    let c2p = t.nth_parent(out.new_tip, 1);
    assert_eq!(t.read_at(c2p, "src/lib.rs"), None, "removed from ancestor");
    assert_eq!(t.read_at(out.new_tip, "src/lib.rs").as_deref(), Some("code\n"), "present at target");
}

// ── hunks, windows and promotion ──

#[test]
fn pure_insertion_is_attributed_to_the_line_it_follows() {
    let t = TestRepo::new();
    let a = lines("a", 8);
    let c1 = t.commit("c1", &[("src.rs", &a)]);
    let ab = format!("{a}{}", lines("b", 8));
    let c2 = t.commit("c2", &[("src.rs", &ab)]);
    let c3 = t.commit("c3", &[("src.rs", &format!("{ab}tail\n"))]);

    let old = t.read_at(c3, "src.rs").unwrap();
    let mut v: Vec<String> = old.split_inclusive('\n').map(String::from).collect();
    v.insert(10, "INSERTED\n".to_string());
    let new: String = v.concat();

    let hs = patch::hunks(old.as_bytes(), new.as_bytes()).unwrap();
    let targets = infer_targets(&t.repo, "src.rs", &old, &hs, &vec![c1, c2, c3]);
    assert_eq!(targets, vec![Some(c2)], "insertion belongs to the owner of the line above it");

    t.stage(&[("src.rs", &new)]);
    let a = collapse(&t.repo, None, &Opts::default()).unwrap();
    assert_eq!((a.folded, a.orphans), (1, 0));
}

#[test]
fn moving_a_hunk_preserves_the_exec_bit_of_an_added_file() {
    let t = TestRepo::new();
    let c1 = t.commit("c1", &[("readme", "hi\n")]);
    let c2 = t.commit_exec("c2", "build.sh", "#!/bin/sh\necho hi\n");
    assert_eq!(t.mode_at(c2, "build.sh"), Some(0o100755), "precondition");

    let c2c = t.repo.find_commit(raw(c2)).unwrap();
    let parent = c2c.parent(0).unwrap();
    let new_tree = c2c.tree().unwrap();
    let mode = new_tree.get_path(Path::new("build.sh")).unwrap().filemode();
    let old = String::new(); // absent in the parent
    let new = t.read_at(c2, "build.sh").unwrap();
    let hs = patch::hunks(old.as_bytes(), new.as_bytes()).unwrap();
    let synth =
        synthetic(&t.repo, oid(parent.id()), "build.sh", &old, &hs, &vec![true], mode);

    let mut recipe = Recipe::new();
    recipe.add(c1, Edit::ApplyChange(synth));
    let tip = replay(&t.repo, None, c2, recipe, true).unwrap().tip;
    assert_eq!(t.mode_at(tip, "build.sh"), Some(0o100755), "exec bit survives the move");
}

#[test]
fn a_merge_in_history_does_not_block_the_linear_stack_above_it() {
    let t = TestRepo::new();
    let base = t.commit("base", &[("a.txt", "1\n")]);
    let main_side = t.commit("main-side", &[("a.txt", "1\n"), ("m.txt", "m\n")]);

    let sib = t.dangling("sib", base, &[base]);
    let merge = t.merge_onto_head("merge", main_side, sib);
    let top = t.commit("top", &[("a.txt", "1\n"), ("m.txt", "m\n"), ("t.txt", "t\n")]);

    assert!(matches!(
        replay(&t.repo, Some(base), top, Recipe::new(), false),
        Err(Error::MergeInRange { .. })
    ));
    let win = walk(&t.repo, git::linear_window(top)).unwrap();
    assert_eq!(win.ids(), vec![top], "window stops at the merge, doesn't error");
    let _ = merge;
}

#[test]
fn set_path_refuses_to_replace_a_directory_with_a_file() {
    let t = TestRepo::new();
    let c1 = t.commit("c1", &[("src/a.rs", "code\n"), ("keep.txt", "k\n")]);
    let blob = oid(t.repo.blob(b"clobber\n").unwrap());
    let tree = t.repo.find_commit(raw(c1)).unwrap().tree().unwrap();

    let mut recipe = Recipe::new();
    recipe.add(c1, Edit::SetFile { path: "src".into(), blob, mode: 0o100644 });
    let r = replay(&t.repo, None, c1, recipe, false);
    assert!(matches!(r, Err(Error::Empty(_))), "got {r:?}");
    assert!(tree.get_path(Path::new("src/a.rs")).is_ok());
}

#[test]
fn promote_refuses_when_the_branch_moved_underneath() {
    let t = TestRepo::new();
    let c1 = t.commit("c1", &[("a.txt", "1\n")]);
    let _c2 = t.commit("c2", &[("a.txt", "2\n")]);
    let stale = t.head();
    let _c3 = t.commit("c3", &[("a.txt", "3\n")]);
    let moved_to = t.head();

    let err = promote(&t.repo, &ops::promote("refs/heads/master", c1, stale, "test", false));
    assert!(err.is_err(), "must refuse a stale-head overwrite");
    assert_eq!(t.branch_oid(), moved_to, "c3 is still on the branch");
}

#[test]
fn forward_move_removes_the_hunk_from_its_source_commit() {
    let t = TestRepo::new();
    let base = lines("l", 12);
    let c1 = t.commit("c1", &[("shared.rs", &base)]);
    let mut v: Vec<String> = base.split_inclusive('\n').map(String::from).collect();
    v[1] = "EDITED-by-c2\n".into();
    let c2_body: String = v.concat();
    let c2 = t.commit("c2", &[("shared.rs", &c2_body)]);
    let c3 = t.commit("c3", &[("shared.rs", &c2_body), ("other.txt", "x\n")]);

    let c2c = t.repo.find_commit(raw(c2)).unwrap();
    let parent = c2c.parent(0).unwrap();
    let old = t.read_at(c1, "shared.rs").unwrap();
    let new = t.read_at(c2, "shared.rs").unwrap();
    let hs = patch::hunks(old.as_bytes(), new.as_bytes()).unwrap();
    assert_eq!(hs.len(), 1, "fixture precondition: one hunk in c2");
    let mode = c2c.tree().unwrap().get_path(Path::new("shared.rs")).unwrap().filemode();
    let synth =
        synthetic(&t.repo, oid(parent.id()), "shared.rs", &old, &hs, &vec![true], mode);

    let mut recipe = Recipe::new();
    recipe.add(c3, Edit::ApplyChange(synth));
    recipe.add(c2, Edit::RevertChange(synth));
    let tip = replay(&t.repo, Some(c1), c3, recipe, false).unwrap().tip;

    let c2p = t.nth_parent(tip, 1);
    assert_eq!(
        t.read_at(c2p, "shared.rs").as_deref(),
        Some(base.as_str()),
        "the hunk LEFT the source commit"
    );
    assert!(
        t.read_at(tip, "shared.rs").unwrap().contains("EDITED-by-c2"),
        "and ARRIVED at the newer target"
    );
    assert_eq!(t.read_at(tip, "other.txt").as_deref(), Some("x\n"));
}

// ── reword ──

#[test]
fn reword_replaces_the_message_and_keeps_everything_else() {
    let t = TestRepo::new();
    let c1 = t.commit("typpo in the summry", &[("a.txt", "1\n")]);
    let _c2 = t.commit("c2", &[("a.txt", "1\n"), ("b.txt", "2\n")]);

    let orig = t.repo.find_commit(raw(c1)).unwrap();
    let (tree, author, when) = (
        orig.tree().unwrap().id(),
        orig.author().name().unwrap().to_string(),
        orig.author().when(),
    );

    let out = reword(&t.repo, &c1.hex(), "typo in the summary", &Opts::default())
        .unwrap();

    let new_c1 = t.repo.find_commit(raw(t.nth_parent(out.new_tip, 1))).unwrap();
    assert_eq!(new_c1.message(), Some("typo in the summary\n"));
    assert_eq!(new_c1.tree().unwrap().id(), tree, "the content is untouched");
    assert_eq!(new_c1.author().name().unwrap(), author, "author preserved");
    assert_eq!(new_c1.author().when(), when, "author date preserved");
    assert_eq!(message(&t, out.new_tip), "c2", "the descendant replayed byte-for-byte");
    assert_eq!(t.commit_count(), 2);
}

#[test]
fn reword_works_with_work_in_progress_on_disk() {
    let t = TestRepo::new();
    let c1 = t.commit("wrong", &[("a.txt", "1\n")]);
    let _c2 = t.commit("c2", &[("a.txt", "1\n"), ("b.txt", "2\n")]);
    t.dirty("b.txt", "half-finished\n");

    let out = reword(&t.repo, &c1.hex(), "right", &Opts::default()).unwrap();

    assert_eq!(message(&t, t.nth_parent(out.new_tip, 1)), "right\n");
    assert_eq!(
        t.disk("b.txt"),
        "half-finished\n",
        "the WIP is still there"
    );
}

#[test]
fn reword_of_a_non_ancestor_changes_nothing() {
    let t = TestRepo::new();
    let c1 = t.commit("c1", &[("a.txt", "1\n")]);
    let c2 = t.commit("c2", &[("a.txt", "2\n")]);
    let off = t.dangling("elsewhere", c1, &[c1]);
    let before = (t.branch_oid(), t.reflog_len());

    let err = reword(&t.repo, &off.hex(), "nope", &Opts::default()).unwrap_err();

    assert!(matches!(err, Error::TargetNotAncestor), "got {err:?}");
    assert_eq!((t.branch_oid(), t.reflog_len()), before, "ref and reflog untouched");
    assert_eq!(t.head(), c2);
}

#[test]
fn dry_run_reword_reports_the_tip_and_moves_nothing() {
    let t = TestRepo::new();
    let c1 = t.commit("c1", &[("a.txt", "1\n")]);
    let _c2 = t.commit("c2", &[("a.txt", "2\n")]);
    let opts = Opts { dry_run: true, ..Opts::default() };

    let out = reword(&t.repo, &c1.hex(), "renamed", &opts).unwrap();

    assert_ne!(out.new_tip, out.old_tip, "it still reports the tip it would produce");
    assert_eq!(t.branch_oid(), out.old_tip, "but the branch has not moved");
    assert_eq!(message(&t, t.nth_parent(out.new_tip, 1)), "renamed\n", "the objects exist");
}

// ── drop, reorder, squash, split ──

#[test]
fn the_replay_takes_an_explicit_order() {
    let t = TestRepo::new();
    let (c1, c2, c3) = independent(&t);
    let r = replay_order(&t.repo, Some(c1), c3, vec![c3, c2], Recipe::new(), true).unwrap();
    assert_eq!(t.read_at(t.nth_parent(r.tip, 1), "c.txt").as_deref(), Some("3\n"));
    assert_eq!(t.read_at(r.tip, "b.txt").as_deref(), Some("2\n"));
    assert_eq!(t.read_at(r.tip, "c.txt").as_deref(), Some("3\n"));
    assert_eq!(t.branch_oid(), c3, "a replay still moves no ref");
}

#[test]
fn drop_removes_the_commit_and_replays_the_rest() {
    let t = TestRepo::new();
    let (_c1, c2, _c3) = independent(&t);

    let out = drop_commit(&t.repo, &c2.hex(), &Opts::default()).unwrap();

    assert_eq!(t.commit_count(), 2, "c2 is gone");
    assert_eq!(t.read_at(out.new_tip, "b.txt"), None, "its change vanished with it");
    assert_eq!(t.read_at(out.new_tip, "a.txt").as_deref(), Some("1\n"));
    assert_eq!(t.read_at(out.new_tip, "c.txt").as_deref(), Some("3\n"), "c3 replayed on top");
    assert_eq!(summary(&t, out.new_tip), "c3");
}

#[test]
fn drop_conflict_leaves_the_branch_byte_identical() {
    let t = TestRepo::new();
    let (_c1, c2, _c3) = chained(&t);
    let before = snapshot(&t);

    let err = drop_commit(&t.repo, &c2.hex(), &Opts::default()).unwrap_err();

    assert!(matches!(err, Error::Conflict { .. }), "got {err:?}");
    assert_eq!(snapshot(&t), before, "ref and reflog untouched");
    assert!(t.is_clean(), "and no half-rebase left in the worktree");
}

#[test]
fn drop_keeps_the_restack_mapping_correct() {
    let t = TestRepo::new();
    let (c1, c2, c3) = independent(&t);
    branch_at(&t, "mid", c2); // sits on the commit being dropped
    branch_at(&t, "late", c3);

    let out = drop_commit(&t.repo, &c2.hex(), &Opts::default()).unwrap();

    assert_eq!(oid_of(&t, "mid"), c1, "a ref on the dropped commit lands on its parent");
    assert_eq!(oid_of(&t, "late"), out.new_tip, "later refs follow their rewrite");
    assert!(out.warnings.is_empty(), "nothing stranded, got {:?}", out.warnings);
}

#[test]
fn reorder_moves_a_commit_and_carries_every_change() {
    let t = TestRepo::new();
    let (c1, c2, c3) = independent(&t);

    let out = reorder(&t.repo, &c3.hex(), &c2.hex(), true, &Opts::default())
        .unwrap();

    assert_eq!(t.commit_count(), 3, "reorder loses nothing");
    let mid = t.nth_parent(out.new_tip, 1);
    assert_eq!((summary(&t, mid).as_str(), summary(&t, out.new_tip).as_str()), ("c3", "c2"));
    assert_eq!(t.read_at(mid, "c.txt").as_deref(), Some("3\n"), "c3 now comes first");
    assert_eq!(t.read_at(mid, "b.txt"), None, "b.txt only arrives with c2, now on top");
    assert_eq!(t.read_at(out.new_tip, "b.txt").as_deref(), Some("2\n"));
    assert_eq!(t.read_at(out.new_tip, "c.txt").as_deref(), Some("3\n"));
    assert_eq!(t.nth_parent(out.new_tip, 2), c1, "the untouched prefix is not rewritten");
}

#[test]
fn reorder_after_is_the_mirror_of_before() {
    let t = TestRepo::new();
    let (_c1, c2, c3) = independent(&t);

    let out = reorder(&t.repo, &c2.hex(), &c3.hex(), false, &Opts::default())
        .unwrap();

    assert_eq!(summary(&t, t.nth_parent(out.new_tip, 1)), "c3");
    assert_eq!(summary(&t, out.new_tip), "c2");
}

#[test]
fn reorder_conflict_leaves_the_branch_byte_identical() {
    let t = TestRepo::new();
    let (_c1, c2, c3) = chained(&t);
    let before = snapshot(&t);

    let err = reorder(&t.repo, &c3.hex(), &c2.hex(), true, &Opts::default())
        .unwrap_err();

    assert!(matches!(err, Error::Conflict { .. }), "got {err:?}");
    assert_eq!(snapshot(&t), before, "ref and reflog untouched");
    assert!(t.is_clean());
}

#[test]
fn reorder_keeps_the_restack_mapping_correct() {
    let t = TestRepo::new();
    let (_c1, c2, c3) = independent(&t);
    branch_at(&t, "mid", c2);

    let out = reorder(&t.repo, &c3.hex(), &c2.hex(), true, &Opts::default())
        .unwrap();

    assert_eq!(oid_of(&t, "mid"), out.new_tip);
    assert!(out.restacked.iter().any(|r| r.starts_with("mid ")), "got {:?}", out.restacked);
}

#[test]
fn squash_folds_into_the_parent_and_keeps_both_messages() {
    let t = TestRepo::new();
    let (_c1, c2, _c3) = independent(&t);

    let out = squash(&t.repo, &c2.hex(), None, &Opts::default()).unwrap();

    assert_eq!(t.commit_count(), 2);
    let folded = t.nth_parent(out.new_tip, 1);
    assert_eq!(message(&t, folded), "c1\n\nc2\n", "neither message is thrown away");
    assert_eq!(t.read_at(folded, "a.txt").as_deref(), Some("1\n"));
    assert_eq!(t.read_at(folded, "b.txt").as_deref(), Some("2\n"), "c2's change came along");
    assert_eq!(t.read_at(out.new_tip, "c.txt").as_deref(), Some("3\n"));
}

#[test]
fn squash_takes_an_explicit_message() {
    let t = TestRepo::new();
    let (_c1, c2, _c3) = independent(&t);

    let out = squash(&t.repo, &c2.hex(), Some("both at once"), &Opts::default())
        .unwrap();

    assert_eq!(message(&t, t.nth_parent(out.new_tip, 1)), "both at once");
}

#[test]
fn squash_cannot_conflict_even_on_a_chain() {
    let t = TestRepo::new();
    let (_c1, c2, _c3) = chained(&t);

    let out = squash(&t.repo, &c2.hex(), None, &Opts::default()).unwrap();

    assert_eq!(t.commit_count(), 2);
    assert_eq!(t.read_at(t.nth_parent(out.new_tip, 1), "a.txt").as_deref(), Some("two\n"));
    assert_eq!(t.read_at(out.new_tip, "a.txt").as_deref(), Some("three\n"));
}

#[test]
fn squashing_the_oldest_commit_refuses_and_changes_nothing() {
    let t = TestRepo::new();
    let (c1, _c2, _c3) = independent(&t);
    let before = snapshot(&t);

    let err = squash(&t.repo, &c1.hex(), None, &Opts::default()).unwrap_err();

    assert!(err.message().contains("oldest commit"), "got {err:?}");
    assert_eq!(snapshot(&t), before);
    assert!(t.is_clean());
}

#[test]
fn squash_keeps_the_restack_mapping_correct() {
    let t = TestRepo::new();
    let (_c1, c2, _c3) = independent(&t);
    branch_at(&t, "mid", c2);

    let out = squash(&t.repo, &c2.hex(), None, &Opts::default()).unwrap();

    assert_eq!(oid_of(&t, "mid"), t.nth_parent(out.new_tip, 1));
}

#[test]
fn split_makes_two_commits_from_one() {
    let t = TestRepo::new();
    t.commit("base", &[("keep.txt", "k\n")]);
    let c2 = t.commit("two things", &[("a.txt", "A\n"), ("b.txt", "B\n")]);

    let out = split(&t.repo, &c2.hex(), &vec!["a.txt".into()], None, &Opts::default())
        .unwrap();

    assert_eq!(t.commit_count(), 3);
    let first = t.nth_parent(out.new_tip, 1);
    assert_eq!(summary(&t, first), "two things (part 1)");
    assert_eq!(t.read_at(first, "a.txt").as_deref(), Some("A\n"));
    assert_eq!(t.read_at(first, "b.txt"), None, "only the named path split off");
    assert_eq!(summary(&t, out.new_tip), "two things", "the remainder keeps the message");
    assert_eq!(t.read_at(out.new_tip, "a.txt").as_deref(), Some("A\n"));
    assert_eq!(t.read_at(out.new_tip, "b.txt").as_deref(), Some("B\n"));
}

#[test]
fn split_refuses_to_take_the_whole_commit() {
    let t = TestRepo::new();
    t.commit("base", &[("keep.txt", "k\n")]);
    let c2 = t.commit("two things", &[("a.txt", "A\n"), ("b.txt", "B\n")]);
    let before = snapshot(&t);

    let paths = vec!["a.txt".to_string(), "b.txt".to_string()];
    let err = split(&t.repo, &c2.hex(), &paths, None, &Opts::default()).unwrap_err();

    assert!(err.message().contains("nothing would be left"), "got {err:?}");
    assert_eq!(snapshot(&t), before, "ref and reflog untouched");
    assert!(t.is_clean());
}

#[test]
fn split_cannot_conflict_and_an_unknown_path_changes_nothing() {
    let t = TestRepo::new();
    t.commit("base", &[("a.txt", "one\n"), ("keep.txt", "k\n")]);
    let c2 = t.commit("edit and add", &[("a.txt", "two\n"), ("new.txt", "n\n")]);
    t.commit("c3", &[("a.txt", "three\n")]); // re-edits the very same line
    let before = snapshot(&t);

    let miss = vec!["nope.txt".to_string()];
    let err = split(&t.repo, &c2.hex(), &miss, None, &Opts::default()).unwrap_err();
    assert!(matches!(err, Error::PathNotFound { .. }), "got {err:?}");
    assert_eq!(snapshot(&t), before, "ref and reflog untouched");
    assert!(t.is_clean());

    let paths = vec!["a.txt".to_string()];
    let out = split(&t.repo, &c2.hex(), &paths, None, &Opts::default()).unwrap();
    assert_eq!(t.commit_count(), 4, "base, split-off, remainder, c3");
    assert_eq!(t.read_at(out.new_tip, "a.txt").as_deref(), Some("three\n"), "c3 still on top");
    let split_off = t.nth_parent(out.new_tip, 2);
    assert_eq!(t.read_at(split_off, "a.txt").as_deref(), Some("two\n"));
    assert_eq!(t.read_at(split_off, "new.txt"), None, "the add stayed behind");
}

#[test]
fn a_commit_emptied_by_the_replay_is_reported_not_silent() {
    let t = TestRepo::new();
    let c1 = t.commit("c1", &[("a.txt", "one\n")]);
    let c2 = t.commit("c2", &[("a.txt", "two\n")]);

    let mut recipe = Recipe::new();
    recipe.add(c1, Edit::ApplyChange(c2));
    let r = replay(&t.repo, None, c2, recipe, true).unwrap();

    assert_eq!(r.dropped, vec![c2], "the emptied commit is named");
    assert_eq!(t.read_at(r.tip, "a.txt").as_deref(), Some("two\n"));
}

// ── fix and move ──

#[test]
fn fix_folds_into_target_and_replays() {
    let t = TestRepo::new();
    let c1 = t.commit("c1", &[("src.rs", V1)]);
    let _c2 = t.commit("c2", &[("src.rs", &cat(&[V1, HELPER]))]);
    let _c3 = t.commit("c3", &[("src.rs", &cat(&[V1, HELPER, OTHER]))]);
    t.stage(&[("src.rs", &cat(&[V2, HELPER, OTHER]))]);

    let out = fix(&t.repo, &c1.hex(), &Opts::default()).unwrap();

    let c1p = t.nth_parent(out.new_tip, 2);
    assert_eq!(t.read_at(c1p, "src.rs").as_deref(), Some(V2));
    assert_eq!(t.read_at(out.new_tip, "src.rs"), Some(cat(&[V2, HELPER, OTHER])));
    assert_ne!(out.new_tip, out.old_tip);
    assert!(t.is_clean(), "worktree + index clean after fix");
}

#[test]
fn fix_is_atomic_on_conflict() {
    let t = TestRepo::new();
    let c1 = t.commit("c1", &[("config.txt", "v=1\n")]);
    let c2 = t.commit("c2", &[("config.txt", "v=2\n")]); // same line changed
    t.stage(&[("config.txt", "v=3\n")]); // conflicting fix

    let before = t.branch_oid();
    let reflog_before = t.reflog_len();

    let r = fix(&t.repo, &c1.hex(), &Opts::default());
    match &r {
        Err(Error::Conflict { suggested, .. }) => {
            assert_eq!(*suggested, Some(c2), "retarget hint points at the owning commit");
        }
        other => panic!("expected a conflict, got {other:?}"),
    }

    assert_eq!(t.branch_oid(), before, "branch ref must not move on conflict");
    assert_eq!(t.reflog_len(), reflog_before, "reflog must not grow on conflict");
    assert_eq!(t.read_at(t.head(), "config.txt").as_deref(), Some("v=2\n"));
}

#[test]
fn fix_into_root_commit() {
    let t = TestRepo::new();
    let c1 = t.commit("c1", &[("a.txt", "1\n")]);
    let _c2 = t.commit("c2", &[("a.txt", "1\n"), ("b.txt", "x\n")]);
    t.stage(&[("a.txt", "1-fixed\n"), ("b.txt", "x\n")]);

    let out = fix(&t.repo, &c1.hex(), &Opts::default()).unwrap();
    let c1p = t.nth_parent(out.new_tip, 1);
    assert_eq!(t.read_at(c1p, "a.txt").as_deref(), Some("1-fixed\n"));
    assert_eq!(t.read_at(c1p, "b.txt"), None, "b.txt not pulled back into the root");
    assert_eq!(t.read_at(out.new_tip, "a.txt").as_deref(), Some("1-fixed\n"));
}

#[test]
fn fix_keeps_unrelated_unstaged_churn() {
    let t = TestRepo::new();
    let c1 = t.commit("c1", &[("a.txt", "1\n")]);
    let _c2 = t.commit("c2", &[("a.txt", "1\n"), ("b.txt", "x\n")]);
    t.stage(&[("a.txt", "1-fixed\n"), ("b.txt", "x\n")]); // staged input
    t.dirty("b.txt", "work in progress\n"); // unrelated, unstaged

    let out = fix(&t.repo, &c1.hex(), &Opts::default()).unwrap();

    assert_eq!(t.read_at(t.nth_parent(out.new_tip, 1), "a.txt").as_deref(), Some("1-fixed\n"));
    assert_eq!(
        t.disk("b.txt"),
        "work in progress\n",
        "the unstaged edit is still on disk — no force checkout ran over it"
    );
}

#[test]
fn fix_nothing_staged_errors() {
    let t = TestRepo::new();
    let c1 = t.commit("c1", &[("a.txt", "1\n")]);
    let _c2 = t.commit("c2", &[("a.txt", "1\n"), ("b.txt", "x\n")]);
    let r = fix(&t.repo, &c1.hex(), &Opts::default());
    assert!(matches!(r, Err(Error::NothingStaged)), "got {r:?}");
}

#[test]
fn merge_commit_in_range_is_rejected() {
    let t = TestRepo::new();
    let c1 = t.commit("c1", &[("a.txt", "1\n")]);
    let c2 = t.commit("c2", &[("a.txt", "1\n"), ("f2.txt", "x\n")]);
    let sib = t.dangling("sib", c1, &[c1]);
    let m = t.dangling("merge", c2, &[c2, sib]);

    let r = replay(&t.repo, Some(c1), m, Recipe::new(), false);
    assert!(matches!(r, Err(Error::MergeInRange { .. })), "got {r:?}");
}

#[test]
fn idempotent_absorption_empties_the_newer_commit() {
    let t = TestRepo::new();
    let c1 = t.commit("c1", &[("a.txt", "x\n")]);
    let c2 = t.commit("c2", &[("a.txt", "x\ny\n")]); // adds line y

    let synth = t.dangling_edit(c1, "a.txt", "x\ny\n");

    let mut recipe = Recipe::new();
    recipe.add(c1, Edit::ApplyChange(synth));
    let new_tip = replay(&t.repo, None, c2, recipe, false).unwrap().tip;

    let c1p = t.nth_parent(new_tip, 1);
    assert_eq!(t.read_at(c1p, "a.txt").as_deref(), Some("x\ny\n"));
    assert_eq!(t.read_at(new_tip, "a.txt").as_deref(), Some("x\ny\n"));
    let tip_tree = t.repo.find_commit(raw(new_tip)).unwrap().tree().unwrap().id();
    let c1p_tree = t.repo.find_commit(raw(c1p)).unwrap().tree().unwrap().id();
    assert_eq!(tip_tree, c1p_tree, "c2 emptied — its change was absorbed into c1");
}

#[test]
fn move_reanchors_file_at_target() {
    let t = TestRepo::new();
    let _c1 = t.commit("c1", &[("root.txt", "r\n")]);
    let _c2 = t.commit("c2", &[("root.txt", "r\n"), ("feature.txt", "feat\n")]); // intro
    let _c3 = t.commit("c3", &[("root.txt", "r2\n"), ("feature.txt", "feat\n")]); // unrelated churn
    let c4 = t.commit("c4", &[("root.txt", "r2\n"), ("feature.txt", "feat\n"), ("x.txt", "x\n")]);
    let _c5 = t.commit(
        "c5",
        &[("root.txt", "r2\n"), ("feature.txt", "feat\n"), ("x.txt", "x\n"), ("y.txt", "y\n")],
    );

    let out = mv(&t.repo, "feature.txt", &c4.hex(), &Opts::default()).unwrap();

    let c2p = t.nth_parent(out.new_tip, 3);
    let c3p = t.nth_parent(out.new_tip, 2);
    let c4p = t.nth_parent(out.new_tip, 1);
    assert_eq!(t.read_at(c2p, "feature.txt"), None, "removed from intro");
    assert_eq!(t.read_at(c3p, "feature.txt"), None, "removed from intermediate");
    assert_eq!(t.read_at(c4p, "feature.txt").as_deref(), Some("feat\n"), "present at target");
    assert_eq!(t.read_at(out.new_tip, "feature.txt").as_deref(), Some("feat\n"), "present at head");
    assert!(t.is_clean());
}

#[test]
fn move_blocked_when_intermediate_modifies_file() {
    let t = TestRepo::new();
    let _c1 = t.commit("c1", &[("root.txt", "r\n")]);
    let _c2 = t.commit("c2", &[("root.txt", "r\n"), ("feature.txt", "v1\n")]); // intro
    let _c3 = t.commit("c3", &[("root.txt", "r\n"), ("feature.txt", "v2\n")]); // MODIFIED
    let c4 = t.commit("c4", &[("root.txt", "r\n"), ("feature.txt", "v2\n")]);

    let r = mv(&t.repo, "feature.txt", &c4.hex(), &Opts::default());
    assert!(matches!(r, Err(Error::FileModified { .. })), "got {r:?}");
}

#[test]
fn move_missing_path_errors() {
    let t = TestRepo::new();
    let _c1 = t.commit("c1", &[("root.txt", "r\n")]);
    let c2 = t.commit("c2", &[("root.txt", "r\n")]);
    let r = mv(&t.repo, "nope.txt", &c2.hex(), &Opts::default());
    assert!(matches!(r, Err(Error::PathNotFound { .. })), "got {r:?}");
}

#[test]
fn move_backward_reanchors_file_earlier() {
    let t = TestRepo::new();
    let c1 = t.commit("c1", &[("f1.txt", "1\n")]);
    let c2 = t.commit("c2", &[("f1.txt", "1\n"), ("f2.txt", "2\n")]);
    let _c3 = t.commit("c3", &[("f1.txt", "1\n"), ("f2.txt", "2\n"), ("f3.txt", "3\n")]);
    let c4 = t.commit(
        "c4",
        &[("f1.txt", "1\n"), ("f2.txt", "2\n"), ("f3.txt", "3\n"), ("f4.txt", "4\n")],
    );

    let out = mv(&t.repo, "f4.txt", &c2.hex(), &Opts::default()).unwrap();

    let c2p = t.nth_parent(out.new_tip, 1);
    assert_eq!(t.read_at(c1, "f4.txt"), None, "absent before the new anchor");
    assert_eq!(t.read_at(c2p, "f4.txt").as_deref(), Some("4\n"), "present at the new anchor");
    assert_eq!(t.read_at(out.new_tip, "f4.txt").as_deref(), Some("4\n"), "carried to the tip");
    assert_eq!(t.read_at(out.new_tip, "f3.txt").as_deref(), Some("3\n"));
    assert_eq!(t.commit_count(), 3, "the emptied intro commit is gone");
    assert_eq!(out.dropped, vec![c4], "and it is reported");
    assert!(t.is_clean());
}

#[test]
fn move_backward_keeps_later_edits() {
    let t = TestRepo::new();
    let _c1 = t.commit("c1", &[("root.txt", "r\n")]);
    let c2 = t.commit("c2", &[("root.txt", "r2\n")]);
    let c3 = t.commit("c3", &[("root.txt", "r2\n"), ("feature.txt", "v1\n")]); // intro
    let _c4 = t.commit("c4", &[("root.txt", "r2\n"), ("feature.txt", "v2\n")]); // edits it

    let out = mv(&t.repo, "feature.txt", &c2.hex(), &Opts::default()).unwrap();

    let c2p = t.nth_parent(out.new_tip, 1);
    assert_eq!(out.dropped, vec![c3], "the emptied intro commit is named");
    assert_eq!(t.read_at(c2p, "feature.txt").as_deref(), Some("v1\n"), "anchored as introduced");
    assert_eq!(t.read_at(out.new_tip, "feature.txt").as_deref(), Some("v2\n"), "later edit kept");
}

#[test]
fn move_to_a_commit_that_deletes_the_file_is_refused() {
    let t = TestRepo::new();
    let _c1 = t.commit("c1", &[("foo.txt", "v1\n"), ("keep.txt", "k\n")]);
    let c2 = t.commit_removing("c2", "foo.txt");
    let c3 = t.commit("c3", &[("other.txt", "o\n")]);
    let _c4 = t.commit("c4", &[("foo.txt", "v2\n")]); // re-added later

    let e = mv(&t.repo, "foo.txt", &c2.hex(), &Opts::default()).unwrap_err();
    let m = e.message();
    assert!(m.contains(&c2.short()), "names the deleting commit: {m}");
    assert!(m.contains("resurrect"), "and says what it refused to do: {m}");

    let e = mv(&t.repo, "foo.txt", &c3.hex(), &Opts::default()).unwrap_err();
    assert!(e.message().contains(&c2.short()), "still names c2: {e:?}");

    assert_eq!(t.head(), t.branch_oid(), "and nothing was rewritten");
    assert_eq!(t.commit_count(), 4);
}

// ── inference and partial folds ──

#[test]
fn drop_empty_keeps_intentionally_empty_commits() {
    let t = TestRepo::new();
    let base = lines("l", 10);
    let c1 = t.commit("c1", &[("a.txt", &base)]);
    let _marker = t.commit("marker", &[("a.txt", &base)]); // empty: tree == c1
    let mut c3v: Vec<String> = base.split_inclusive('\n').map(String::from).collect();
    c3v[9] = "L10\n".into();
    let c3 = t.commit("c3", &[("a.txt", &c3v.concat())]);

    let mut sv: Vec<String> = base.split_inclusive('\n').map(String::from).collect();
    sv[0] = "L1\n".into();
    let synth = t.dangling_edit(c1, "a.txt", &sv.concat());

    let mut recipe = Recipe::new();
    recipe.add(c1, Edit::ApplyChange(synth));
    let new_tip = replay(&t.repo, None, c3, recipe, true).unwrap().tip;

    let markerp = t.nth_parent(new_tip, 1);
    let c1p = t.nth_parent(new_tip, 2);
    assert_eq!(t.repo.find_commit(raw(c1p)).unwrap().parent_count(), 0, "c1' is the root");
    assert_eq!(
        t.repo.find_commit(raw(markerp)).unwrap().tree().unwrap().id(),
        t.repo.find_commit(raw(c1p)).unwrap().tree().unwrap().id(),
        "intentionally-empty marker preserved (empty vs its parent)"
    );
}

#[test]
fn drop_empty_removes_a_commit_absorbed_elsewhere() {
    let t = TestRepo::new();
    let c1 = t.commit("c1", &[("a.txt", "x\n")]);
    let c2 = t.commit("c2", &[("a.txt", "x\ny\n")]); // adds line y

    let synth = t.dangling_edit(c1, "a.txt", "x\ny\n");

    let recipe = || {
        let mut r = Recipe::new();
        r.add(c1, Edit::ApplyChange(synth));
        r
    };

    let kept = replay(&t.repo, None, c2, recipe(), false).unwrap().tip;
    assert_eq!(t.repo.find_commit(raw(kept)).unwrap().parent_count(), 1);
    let dropped = replay(&t.repo, None, c2, recipe(), true).unwrap().tip;
    assert_eq!(t.repo.find_commit(raw(dropped)).unwrap().parent_count(), 0, "empty c2 dropped");
    assert_eq!(t.read_at(dropped, "a.txt").as_deref(), Some("x\ny\n"));
}

#[test]
fn inference_distributes_hunks_to_owning_commits() {
    let t = TestRepo::new();
    let (c1, c2, c3) = owned_stack(&t);

    let old = t.read_at(c3, "src.rs").unwrap();
    let mut nl: Vec<String> = old.split_inclusive('\n').map(String::from).collect();
    nl[1] = "A2\n".into();
    nl[9] = "B2\n".into();
    let new: String = nl.concat();

    let hs = patch::hunks(old.as_bytes(), new.as_bytes()).unwrap();
    assert_eq!(hs.len(), 2, "expected two separate hunks");

    let targets = infer_targets(&t.repo, "src.rs", &old, &hs, &vec![c1, c2, c3]);
    assert_eq!(targets, vec![Some(c1), Some(c2)], "each hunk routed to its owner");
}

#[test]
fn inference_reports_no_home_outside_window() {
    let t = TestRepo::new();
    let (c1, c2, c3) = owned_stack(&t);

    let old = t.read_at(c3, "src.rs").unwrap();
    let mut nl: Vec<String> = old.split_inclusive('\n').map(String::from).collect();
    nl[1] = "A2\n".into();
    let new: String = nl.concat();

    let hs = patch::hunks(old.as_bytes(), new.as_bytes()).unwrap();
    let targets = infer_targets(&t.repo, "src.rs", &old, &hs, &vec![c2, c3]);
    assert_eq!(targets, vec![None], "line owned before the window has no home");
    let _ = c1;
}

#[test]
fn hunk_subset_fold_lands_only_selected_hunk() {
    let t = TestRepo::new();
    let (c1, _c2, c3) = owned_stack(&t);

    let old = t.read_at(c3, "src.rs").unwrap();
    let mut nl: Vec<String> = old.split_inclusive('\n').map(String::from).collect();
    nl[1] = "A2\n".into(); // hunk 1 (line 2, owned by c1)
    nl[9] = "B2\n".into(); // hunk 2 (line 10) — deliberately NOT selected
    let new: String = nl.concat();

    let hs = patch::hunks(old.as_bytes(), new.as_bytes()).unwrap();
    let synth = synthetic(&t.repo, c3, "src.rs", &old, &hs, &vec![true, false], 0o100644);
    let mut recipe = Recipe::new();
    recipe.add(c1, Edit::ApplyChange(synth));
    let new_tip = replay(&t.repo, None, c3, recipe, false).unwrap().tip;

    let c1p = t.nth_parent(new_tip, 2);
    let c1_txt = t.read_at(c1p, "src.rs").unwrap();
    let head_txt = t.read_at(new_tip, "src.rs").unwrap();
    assert!(c1_txt.contains("A2\n"), "selected hunk folded into c1");
    assert!(head_txt.contains("A2\n"), "and carried to the tip");
    assert!(!head_txt.contains("B2\n"), "unselected hunk must NOT be applied");
    assert!(head_txt.contains("b2\n"), "line 10 keeps its original content");
}

// ── sibling refs ──

#[test]
fn mid_stack_branch_follows_the_rewrite() {
    let t = TestRepo::new();
    let (c1, c2, _c3) = stack(&t);
    branch_at(&t, "mid", c2);
    t.stage(&[("a.txt", "1-fixed\n"), ("b.txt", "x\n"), ("c.txt", "y\n")]);

    let out = fix(&t.repo, &c1.hex(), &Opts::default()).unwrap();

    let mid = oid_of(&t, "mid");
    assert_ne!(mid, c2, "mid must not be stranded on the orphaned c2");
    assert_eq!(mid, t.nth_parent(out.new_tip, 1), "mid is c2's rewritten counterpart");
    assert_eq!(
        t.read_at(mid, "a.txt").as_deref(),
        Some("1-fixed\n"),
        "and it carries the fix that was folded in below it"
    );
    assert!(
        out.restacked.iter().any(|r| r.starts_with("mid ")),
        "the move is reported, got {:?}",
        out.restacked
    );
    assert!(out.warnings.is_empty(), "nothing left to warn about, got {:?}", out.warnings);
}

#[test]
fn a_tag_is_never_moved() {
    let t = TestRepo::new();
    let (c1, c2, _c3) = stack(&t);
    t.repo.reference("refs/tags/v1", raw(c2), false, "test").unwrap();
    t.stage(&[("a.txt", "1-fixed\n"), ("b.txt", "x\n"), ("c.txt", "y\n")]);

    let out = fix(&t.repo, &c1.hex(), &Opts::default()).unwrap();

    assert_eq!(
        oid(t.repo.refname_to_id("refs/tags/v1").unwrap()),
        c2,
        "a tag names a specific historical commit; it must stay put"
    );
    assert!(out.restacked.is_empty(), "a tag is not a restack, got {:?}", out.restacked);
    assert!(
        out.warnings.iter().any(|w| w.contains("v1")),
        "but it is still warned about, got {:?}",
        out.warnings
    );
}

#[test]
fn branch_on_a_dropped_commit_lands_on_its_rewritten_parent() {
    let t = TestRepo::new();
    let c1 = t.commit("c1", &[("a.txt", "one\n")]);
    let c2 = t.commit("c2", &[("a.txt", "two\n")]);
    let c3 = t.commit("c3", &[("a.txt", "two\n"), ("b.txt", "x\n")]);
    branch_at(&t, "doomed", c2);
    t.stage(&[("a.txt", "one\n"), ("b.txt", "x\n")]);

    let a = collapse(&t.repo, None, &Opts::default()).unwrap();
    let out = a.outcome.expect("something absorbed");
    assert_eq!(t.commit_count(), 2, "c2 emptied and was dropped ({}, {} remain)", c1.short(), c3.short());

    let doomed = oid_of(&t, "doomed");
    assert_eq!(doomed, t.nth_parent(out.new_tip, 1), "landed on c1, c2's rewritten parent");
    assert_eq!(t.read_at(doomed, "a.txt").as_deref(), Some("one\n"), "same content as before");
    assert!(out.restacked.iter().any(|r| r.starts_with("doomed ")));
}

#[test]
fn a_dropped_commit_maps_to_its_rewritten_parent() {
    let t = TestRepo::new();
    let c1 = t.commit("c1", &[("a.txt", "one\n")]);
    let c2 = t.commit("c2", &[("a.txt", "two\n")]);
    let mut recipe = Recipe::new();
    recipe.add(c2, Edit::RevertChange(c2)); // empties c2

    let r = replay(&t.repo, None, c2, recipe, true).unwrap();
    assert_eq!(engine::image_of(&r.map, c1), Some(r.tip), "c1 survived and is the new tip");
    assert_eq!(engine::image_of(&r.map, c2), Some(r.tip), "c2 was dropped -> its rewritten parent");
}

#[test]
fn a_sibling_outside_the_rewritten_range_is_untouched() {
    let t = TestRepo::new();
    let (c1, c2, _c3) = stack(&t);
    branch_at(&t, "below", c1); // c1 is the fix target's parent — never rewritten
    t.stage(&[("a.txt", "1\n"), ("b.txt", "x-fixed\n"), ("c.txt", "y\n")]);

    let out = fix(&t.repo, &c2.hex(), &Opts::default()).unwrap();
    assert_eq!(oid_of(&t, "below"), c1, "not in the map, so not moved");
    assert!(out.restacked.is_empty(), "and not reported as moved, got {:?}", out.restacked);
}

#[test]
fn undo_refuses_to_clobber_a_sibling_that_moved_since() {
    let t = TestRepo::new();
    let (c1, c2, _c3) = stack(&t);
    branch_at(&t, "mid", c2);
    t.stage(&[("a.txt", "1-fixed\n"), ("b.txt", "x\n"), ("c.txt", "y\n")]);
    fix(&t.repo, &c1.hex(), &Opts::default()).unwrap();

    t.repo.reference("refs/heads/mid", raw(c1), true, "committed elsewhere").unwrap();
    let u = undo(&t.repo, false).unwrap();
    assert_eq!(oid_of(&t, "mid"), c1, "sibling that moved since is not clobbered");
    assert!(u.restacked.is_empty(), "and not claimed as restored, got {:?}", u.restacked);
}

#[test]
fn a_branch_checked_out_in_another_worktree_is_refused() {
    let t = TestRepo::new();
    let (c1, c2, _c3) = stack(&t);
    branch_at(&t, "mid", c2);
    let wt = format!("{}-wt-mid", t.dir);
    let mut opts = git2::WorktreeAddOptions::new();
    let mid_ref = t.repo.find_reference("refs/heads/mid").unwrap();
    opts.reference(Some(&mid_ref));
    t.repo.worktree("wt-mid", Path::new(&wt), Some(&opts)).unwrap();
    t.stage(&[("a.txt", "1-fixed\n"), ("b.txt", "x\n"), ("c.txt", "y\n")]);

    let out = fix(&t.repo, &c1.hex(), &Opts::default()).unwrap();

    assert_eq!(oid_of(&t, "mid"), c2, "moving it would desync that worktree's HEAD");
    assert!(out.restacked.is_empty());
    assert!(
        out.warnings.iter().any(|w| w.contains("mid") && w.contains("worktree")),
        "the refusal is reported, got {:?}",
        out.warnings
    );
}

#[test]
fn undo_walks_the_siblings_back_too() {
    let t = TestRepo::new();
    let (c1, c2, _c3) = stack(&t);
    branch_at(&t, "mid", c2);
    t.stage(&[("a.txt", "1-fixed\n"), ("b.txt", "x\n"), ("c.txt", "y\n")]);

    fix(&t.repo, &c1.hex(), &Opts::default()).unwrap();
    assert_ne!(oid_of(&t, "mid"), c2);

    let u = undo(&t.repo, false).unwrap();
    assert_eq!(oid_of(&t, "mid"), c2, "undo restores the whole stack, not just the branch");
    assert!(u.restacked.iter().any(|r| r.starts_with("mid ")), "reported, got {:?}", u.restacked);
}

#[test]
fn dry_run_moves_no_sibling() {
    let t = TestRepo::new();
    let (c1, c2, _c3) = stack(&t);
    branch_at(&t, "mid", c2);
    t.stage(&[("a.txt", "1-fixed\n"), ("b.txt", "x\n"), ("c.txt", "y\n")]);

    let opts = Opts { dry_run: true, ..Opts::default() };
    let out = fix(&t.repo, &c1.hex(), &opts).unwrap();
    assert_eq!(oid_of(&t, "mid"), c2, "dry run changes nothing");
    assert!(
        out.restacked.iter().any(|r| r.starts_with("mid ")),
        "but it does report what it would move, got {:?}",
        out.restacked
    );
}

#[test]
fn a_branch_that_forked_inside_the_rewritten_range_is_warned_about() {
    let t = TestRepo::new();
    let (c1, c2, _c3) = stack(&t);
    let feat_tip = t.dangling("feat work", c2, &[c2]);
    branch_at(&t, "feat", feat_tip);
    t.stage(&[("a.txt", "1-fixed\n"), ("b.txt", "x\n"), ("c.txt", "y\n")]);

    let out = fix(&t.repo, &c1.hex(), &Opts::default()).unwrap();

    assert_eq!(oid_of(&t, "feat"), feat_tip, "not moved: landing it is a rebase, not a ref move");
    assert!(out.restacked.is_empty(), "and not claimed as restacked, got {:?}", out.restacked);
    let w = out.warnings.join("\n");
    assert!(w.contains("feat forked at"), "the fork point is named, got {w}");
    assert!(w.contains("git rebase --onto"), "and the fix is spelled out, got {w}");
}

#[test]
fn a_branch_that_forked_below_the_rewrite_is_not_warned_about() {
    let t = TestRepo::new();
    let (c1, c2, _c3) = stack(&t);
    let old = t.dangling("old work", c1, &[c1]);
    branch_at(&t, "old", old);
    t.stage(&[("a.txt", "1\n"), ("b.txt", "x-fixed\n"), ("c.txt", "y\n")]);

    let out = fix(&t.repo, &c2.hex(), &Opts::default()).unwrap();
    assert_eq!(oid_of(&t, "old"), old);
    assert!(out.warnings.is_empty(), "nothing to say about it, got {:?}", out.warnings);
}

#[test]
fn a_corrupt_ref_listing_refuses_and_leaves_the_branch_alone() {
    let t = TestRepo::new();
    let (c1, _c2, _c3) = stack(&t);
    t.stage(&[("a.txt", "1-fixed\n"), ("b.txt", "x\n"), ("c.txt", "y\n")]);
    let before = snapshot(&t);
    t.write_in(&format!("{}/.git", t.dir), "packed-refs", "this is not a packed-refs file\n");

    let r = fix(&t.repo, &c1.hex(), &Opts::default());
    assert!(r.is_err(), "must refuse, got {r:?}");
    assert_eq!(snapshot(&t), before, "and leave the branch (and its reflog) untouched");
}

#[test]
fn a_listing_without_our_own_branch_is_refused() {
    let t = TestRepo::new();
    stack(&t);
    let Event::Refs(refs) = act(&t.repo, &Action::ListRefs) else { panic!("not listed") };
    let r = ops::sibling_refs(refs, "refs/heads/not-listed");
    assert!(r.is_err(), "an incomplete listing cannot clear anything, got {r:?}");
}

#[test]
fn a_stash_still_applies_after_its_base_is_rewritten() {
    let mut t = TestRepo::new();
    let (c1, _c2, _c3) = stack(&t);
    t.dirty("c.txt", "y-wip\n");
    let sig = t.repo.signature().unwrap();
    let stash = oid(t.repo.stash_save(&sig, "wip", None).unwrap());

    t.stage(&[("a.txt", "1-fixed\n"), ("b.txt", "x\n"), ("c.txt", "y\n")]);
    let out = fix(&t.repo, &c1.hex(), &Opts::default()).unwrap();
    assert_ne!(out.new_tip, out.old_tip, "the stash's base commit really was rewritten");
    assert_eq!(oid(t.repo.refname_to_id("refs/stash").unwrap()), stash, "the stash ref never moves");

    t.repo.stash_apply(0, None).expect("the stash still applies");
    assert_eq!(
        t.disk("c.txt"),
        "y-wip\n",
        "and it restores the work it held"
    );
}


// ── the screen ──

#[test]
fn end_to_end_absorb_applies_and_moves_branch() {
    let f = staged_fixture();
    let before = f.head();

    let mut app = load(&f.repo, None, Opts::default()).unwrap();
    assert!(!app.files.is_empty(), "staged hunk loaded");
    assert!(app.commits.iter().all(|c| c.diff.is_none()), "load reads no diffs");
    ensure_diff(&mut app, &f.repo);
    let cur = app.commits[app.commit_cursor].diff.as_ref().expect("cursor row filled");
    assert!(cur.iter().any(|(o, t)| *o == '+' && t.contains("extra")), "and it is the right diff");
    assert!(app.commits[1..].iter().all(|c| c.diff.is_none()), "the others stay unread");
    assert_eq!(on_key(&mut app, Key::Enter), Flow::Apply);
    execute(&mut app, &f.repo);
    assert!(!app.applied, "first Enter must NOT apply");
    assert!(app.pending_apply, "first Enter arms the confirm");
    assert!(app.status.contains("Enter again"), "scope reported: {}", app.status);
    assert_eq!(f.head(), before, "ref unmoved after arming");

    assert_eq!(on_key(&mut app, Key::Enter), Flow::Apply);
    execute(&mut app, &f.repo);
    assert!(app.applied, "applied: {}", app.status);
    let after = f.head();
    assert_ne!(after, before, "branch moved");
    let c1p = f.repo.find_commit(raw(after)).unwrap().parent(0).unwrap();
    let blob = c1p.tree().unwrap().get_path(Path::new("f.rs")).unwrap()
        .to_object(&f.repo).unwrap().peel_to_blob().unwrap();
    let c1_txt = String::from_utf8(blob.content().to_vec()).unwrap();
    assert!(c1_txt.contains("L2"), "hunk folded into its OWNER c1, not elsewhere");
    assert!(!c1_txt.contains("extra"), "c1 did not absorb c2's content");
}

#[test]
fn empty_hunk_pane_explains_the_workflow() {
    let f = staged_fixture();
    {
        let head = f.repo.head().unwrap().peel_to_commit().unwrap();
        f.repo.reset(head.as_object(), git2::ResetType::Hard, None).unwrap();
    }
    let mut app = load(&f.repo, None, Opts::default()).unwrap();
    assert!(app.flat.is_empty());
    let browse = render_at(&app, 100, 30);
    assert!(browse.contains("nothing staged"), "diff title is honest: no false 'select hunks'");
    on_key(&mut app, Key::Tab);
    let text = render_at(&app, 100, 30);
    assert!(text.contains("git add"), "empty pane teaches folding unstaged work");
    assert!(text.contains("Press w"), "and points at the key that does it");
}

#[test]
fn renders_commit_list_and_selected_commit_diff() {
    let f = staged_fixture();
    let mut app = load(&f.repo, None, Opts::default()).unwrap(); // default focus = Commits
    ensure_diff(&mut app, &f.repo); // the event loop does this before every draw
    let text = render_to_text(&app);
    assert!(text.contains("commits"), "commit list pane rendered");
    assert!(text.contains("[DIFF]"), "commit-diff pane shown while browsing");
    assert!(text.contains("extra"), "browsing a commit shows its diff (regression)");
}

#[test]
fn commit_rows_show_the_branches_a_rewrite_would_carry() {
    let f = staged_fixture();
    let head = f.repo.head().unwrap().peel_to_commit().unwrap();
    f.repo.branch("pr-2", &head.parent(0).unwrap(), false).unwrap();
    let app = load(&f.repo, None, Opts::default()).unwrap();
    assert!(app.commits[1].refs.contains(&"pr-2".to_string()), "the sibling branch is on its row");
    assert!(render_at(&app, 100, 30).contains("(pr-2)"), "and it is drawn");
}

#[test]
fn renders_hunk_selector_when_right_focused() {
    let f = staged_fixture();
    let mut app = load(&f.repo, None, Opts::default()).unwrap();
    on_key(&mut app, Key::Tab); // focus the right pane
    let text = render_to_text(&app);
    assert!(text.contains("[STAGED HUNKS]"), "staged-hunk selector shown when right-focused");
    assert!(text.contains("[x]"), "hunk checkboxes rendered");
}

#[test]
fn launch_status_advertises_absorb_not_a_second_keymap() {
    let f = staged_fixture();
    let app = load(&f.repo, None, Opts::default()).unwrap();
    assert!(app.status.contains("absorb"), "sells the primary action: {}", app.status);
    assert!(!app.status.contains("Tab pane"), "must not duplicate the keymap: {}", app.status);
}

#[test]
fn target_marker_survives_long_commit_summaries() {
    let f = staged_fixture();
    let mut app = load(&f.repo, None, Opts::default()).unwrap();
    for c in app.commits.iter_mut() {
        c.summary = "a very long commit summary that will certainly be truncated".into();
    }
    assert!(app.active_target().is_some(), "inference set a target");
    let text = render_at(&app, 100, 30);
    assert!(text.contains('◀'), "target marker visible in the left gutter");
}

#[test]
fn context_line_always_names_the_current_hunk() {
    let f = staged_fixture();
    let app = load(&f.repo, None, Opts::default()).unwrap();
    let ctx = app.context_line();
    assert!(ctx.starts_with("staged · hunk 1/"), "names the source: {ctx}");
    assert!(ctx.contains("f.rs"), "{ctx}");
    assert!(render_to_text(&app).contains("hunk 1/"), "context line rendered while browsing");
}

#[test]
fn selection_counts_survive_a_cramped_terminal() {
    let f = staged_fixture();
    let mut app = load(&f.repo, None, Opts::default()).unwrap();
    on_key(&mut app, Key::Tab); // show the hunk pane
    let text = render_at(&app, 80, 24);
    assert!(text.contains("selected"), "counts live in the title, not the overflowing status");
}

#[test]
fn file_source_warns_up_front_when_tree_is_dirty() {
    let f = staged_fixture(); // fixture has a staged change
    let mut app = load(&f.repo, None, Opts::default()).unwrap();
    assert!(app.tree_dirty, "fixture is dirty");
    on_key(&mut app, Key::Char('m'));
    let text = render_at(&app, 100, 30);
    assert!(text.contains("clean tree"), "the file list says so before you press Enter");
}

#[test]
fn help_is_focus_aware() {
    let f = staged_fixture();
    let mut app = load(&f.repo, None, Opts::default()).unwrap();
    let (commit_title, _, commits) = help(&app);
    on_key(&mut app, Key::Tab); // focus the hunk pane
    let (hunk_title, _, hunks) = help(&app);
    assert_ne!(commit_title, hunk_title, "the two panes are different screens");
    let has = |rows: &[(&str, &str)], m: &str| rows.iter().any(|(_, v)| v.contains(m));
    assert!(has(&commits, "drop this commit"), "commit pane owns the shape verbs");
    assert!(!has(&hunks, "drop this commit"), "hunk pane drops keys that no-op there");
    assert!(has(&hunks, "pick / unpick"), "hunk pane shows its own keys");
    app.help = true;
    assert!(render_to_text(&app).contains("pick / unpick"));
}

#[test]
fn help_rows_fit_the_popup_at_80_columns() {
    let f = staged_fixture();
    let mut app = load(&f.repo, None, Opts::default()).unwrap();
    assert!(hint().chars().count() <= 80, "the always-on hint must fit 80 cols");
    for focus in [Pane::Commits, Pane::Right] {
        for source in [Source::Staged, Source::Commit(app.head), Source::Files] {
            for phantom in [false, true] {
                app.focus = focus;
                app.source = source;
                app.phantom_cursor = phantom;
                let (_, lead, rows) = help(&app);
                assert!(lead.chars().count() <= 62, "{focus:?}/{source:?} lead too wide: {lead}");
                for (k, m) in rows {
                    assert!(k.chars().count() <= 5, "key column overflows: {k}");
                    assert!(m.chars().count() <= 55, "{focus:?}/{source:?} row too wide: {m}");
                }
            }
        }
    }
}

#[test]
fn help_on_the_phantom_row_is_not_the_commit_help() {
    let f = two_hunk_commit_fixture();
    let mut app = load(&f.repo, None, Opts::default()).unwrap();
    open_commit_source(&mut app, &f.repo);
    on_key(&mut app, Key::Tab); // to the commit list
    on_key(&mut app, Key::Home); // the phantom sits above the newest
    assert!(app.on_phantom(), "fixture precondition");
    let (title, _, rows) = help(&app);
    assert_eq!(title, "+ new commit here");
    assert!(
        !rows.iter().any(|(_, m)| m.contains("drop this commit")),
        "commit verbs must not be offered on a row that is not a commit"
    );
}

#[test]
fn help_is_not_clipped_at_the_sizes_we_support() {
    let f = staged_fixture();
    let mut app = load(&f.repo, None, Opts::default()).unwrap();
    app.help = true;
    for focus in [Pane::Commits, Pane::Right] {
        for source in [Source::Staged, Source::Commit(app.head), Source::Files] {
            app.focus = focus;
            app.source = source;
            let (_, _, rows) = help(&app);
            let last = rows.last().unwrap().1;
            for (w, h) in [(100, 30), (80, 24)] {
                assert!(
                    render_at(&app, w, h).contains(last),
                    "{focus:?}/{source:?} help clipped at {w}x{h}: lost {last:?}"
                );
            }
        }
    }
}

#[test]
fn the_hunk_and_its_destination_are_both_on_screen_in_either_focus() {
    let f = staged_fixture();
    let mut app = load(&f.repo, None, Opts::default()).unwrap();
    for focus in ["commits", "right"] {
        let text = render_at(&app, 80, 24);
        assert!(text.contains("[STAGED HUNKS]"), "hunk list visible with {focus} focused: {text}");
        assert!(text.contains("[DIFF]"), "destination diff visible with {focus} focused: {text}");
        on_key(&mut app, Key::Tab);
    }
}

#[test]
fn commit_rows_carry_the_whole_routing_not_just_the_cursors() {
    let f = multi_hunk_fixture();
    let mut app = load(&f.repo, None, Opts::default()).unwrap();
    let dest = app.commits[0].oid;
    on_key(&mut app, Key::Tab); // hunk pane
    on_key(&mut app, Key::Tab); // back to commits, cursor on the newest
    on_key(&mut app, Key::Char('f')); // route EVERY picked hunk there
    let n = app.picked();
    assert!(n > 1, "fixture precondition: more than one hunk picked");
    assert_eq!(app.routing(), vec![(dest, n)], "the whole selection lands on one commit");
    let text = render_at(&app, 80, 24);
    assert!(text.contains(&format!("{n:<2}{}", dest.short())), "the count sits in the row's gutter: {text}");
    assert!(app.routing_summary().contains(&format!("{n} hunk(s) → {}", dest.short())), "{}", app.routing_summary());
}

#[test]
fn a_long_conflict_message_survives_80_columns() {
    let f = staged_fixture();
    let mut app = load(&f.repo, None, Opts::default()).unwrap();
    app.status =
        "conflict while rewriting 1ab2bb72 in cfg.txt — 7b7de062 owns those lines; try 'fix 7b7de062' or 'absorb'"
            .into();
    let text = render_at(&app, 80, 24);
    assert!(text.contains("conflict while rewriting"), "the first clause: {text}");
    assert!(text.contains("fix 7b7de062"), "and the retarget hint, which is the actionable half: {text}");
}

#[test]
fn the_hint_is_not_clipped_on_a_narrow_terminal() {
    let f = staged_fixture();
    let app = load(&f.repo, None, Opts::default()).unwrap();
    let text = render_at(&app, 80, 24);
    assert!(text.contains("⏎ apply"), "the apply key must survive 80 cols");
    assert!(text.contains("? help"), "the way to find every other key must survive");
    assert!(text.contains("q quit"), "the quit key must survive 80 cols");
}

#[test]
fn the_commit_pane_stays_readable_at_80_columns() {
    let f = staged_fixture();
    let mut app = load(&f.repo, None, Opts::default()).unwrap();
    for c in app.commits.iter_mut() {
        c.summary = "add the parser module".into(); // 21 chars
    }
    let narrow = render_at(&app, 80, 24);
    assert!(narrow.contains("add the parser modul"), "summary survives 80 cols: {narrow}");
    on_key(&mut app, Key::Tab);
    let hunks = render_at(&app, 80, 24);
    assert!(hunks.contains("[STAGED HUNKS]"), "right pane still works at 80 cols");
    assert!(render_at(&app, 100, 30).contains("[STAGED HUNKS]"), "and at 100");
}

#[test]
fn staged_binary_file_is_reported_not_silently_dropped() {
    let f = staged_fixture();
    f.dirty("blob.bin", vec![0x63, 0x61, 0x66, 0xE9, 0x0A]);
    {
        let mut idx = f.repo.index().unwrap();
        idx.add_path(Path::new("blob.bin")).unwrap();
        idx.write().unwrap();
    }
    {
        let tree = {
            let mut idx = f.repo.index().unwrap();
            f.repo.find_tree(idx.write_tree().unwrap()).unwrap()
        };
        let sig = f.repo.signature().unwrap();
        let head = f.repo.head().unwrap().peel_to_commit().unwrap();
        f.repo.commit(Some("HEAD"), &sig, &sig, "add binary", &tree, &[&head]).unwrap();
    }
    f.dirty("blob.bin", vec![0x63, 0x61, 0x66, 0xEE, 0x0A]);
    let mut idx = f.repo.index().unwrap();
    idx.add_path(Path::new("blob.bin")).unwrap();
    idx.write().unwrap();

    let app = load(&f.repo, None, Opts::default()).unwrap();
    assert!(
        app.skipped.iter().any(|p| p == "blob.bin"),
        "non-UTF-8 modification must be recorded, not dropped: {:?}",
        app.skipped
    );
}

#[test]
fn a_staged_add_folds_as_one_whole_file_hunk() {
    let f = added_file_fixture();
    let mut app = load(&f.repo, None, Opts::default()).unwrap();
    assert_eq!(app.flat.len(), 1, "the add is offered as a hunk");
    assert_eq!(app.files[0].path, "brand_new.rs");
    assert!(app.skipped.is_empty(), "and not filed away as unfoldable");

    assert_eq!(app.files[0].targets[0], None, "no inferred home for a new path");
    on_key(&mut app, Key::Down); // the older commit — the fixture's c1
    on_key(&mut app, Key::Char('t'));
    on_key(&mut app, Key::Enter);
    execute(&mut app, &f.repo);
    on_key(&mut app, Key::Enter);
    execute(&mut app, &f.repo);
    assert!(app.applied, "applied: {}", app.status);

    let parent = f.repo.head().unwrap().peel_to_commit().unwrap().parent(0).unwrap();
    let blob = blob_at(&f.repo, &parent.tree().unwrap(), "brand_new.rs");
    assert!(String::from_utf8_lossy(&blob).contains("fn added"), "the add landed at the older commit");
}

#[test]
fn commit_diff_header_is_not_a_run_on_line() {
    let f = staged_fixture();
    let app = load(&f.repo, None, Opts::default()).unwrap();
    let text = render_to_text(&app);
    assert!(!text.contains("b/f.rsindex"), "git's multi-line header must be split");
}

#[test]
fn e_opens_the_selected_commits_hunks_as_the_source() {
    let f = multi_hunk_fixture();
    let mut app = load(&f.repo, None, Opts::default()).unwrap();
    let c2 = app.commits[0].oid;
    assert_eq!(on_key(&mut app, Key::Char('e')), Flow::OpenCommit);
    open_commit_source(&mut app, &f.repo);

    assert_eq!(app.source, Source::Commit(c2), "source is now that commit");
    assert!(!app.flat.is_empty(), "its hunks are listed");
    assert!(
        app.files.iter().all(|fe| fe.selected.iter().all(|&s| !s)),
        "nothing pre-selected — moving a commit's hunks is deliberate"
    );
    assert_eq!(app.focus, Pane::Right, "focus jumps to the hunk list");
    assert!(render_at(&app, 100, 30).contains("HUNKS FROM"), "title names the source");
}

#[test]
fn e_again_returns_to_the_staged_view() {
    let f = multi_hunk_fixture();
    let mut app = load(&f.repo, None, Opts::default()).unwrap();
    open_commit_source(&mut app, &f.repo);
    assert!(matches!(app.source, Source::Commit(_)));
    on_key(&mut app, Key::Tab); // `e` only acts from the commit list
    open_commit_source(&mut app, &f.repo); // same commit again
    assert_eq!(app.source, Source::Staged, "toggles back to staged hunks");
}

#[test]
fn move_one_hunk_of_two_out_of_a_commit_leaving_the_other() {
    let f = two_hunk_commit_fixture();
    let repo = &f.repo;
    let mut app = load(repo, None, Opts::default()).unwrap();
    open_commit_source(&mut app, repo);
    assert_eq!(app.flat.len(), 2, "fixture precondition: c2 has two separate hunks");

    on_key(&mut app, Key::Char(' '));
    assert_eq!(app.files[0].selected, vec![true, false], "exactly one hunk picked");
    on_key(&mut app, Key::Tab);
    on_key(&mut app, Key::Down);
    on_key(&mut app, Key::Char('t'));
    execute(&mut app, repo); // arm
    execute(&mut app, repo); // apply
    assert!(app.applied, "applied: {}", app.status);

    let tip = f.head();
    let read = |c: &git2::Commit| {
        let b = c.tree().unwrap().get_path(Path::new("f.rs")).unwrap()
            .to_object(repo).unwrap().peel_to_blob().unwrap();
        String::from_utf8(b.content().to_vec()).unwrap()
    };
    let tipc = repo.find_commit(raw(tip)).unwrap();
    let c1p = tipc.parent(0).unwrap();
    let c1_txt = read(&c1p);
    assert!(c1_txt.contains("FIRST-EDIT"), "the picked hunk moved back to c1");
    assert!(!c1_txt.contains("SECOND-EDIT"), "the UNPICKED hunk did not follow it");
    let tip_txt = read(&tipc);
    assert!(tip_txt.contains("FIRST-EDIT") && tip_txt.contains("SECOND-EDIT"), "tip has both");
}

#[test]
fn moves_a_hunk_to_a_commit_two_back_with_a_dirty_worktree() {
    let f = stack4();
    f.dirty("f1.rs", "unrelated work in progress\n");

    let mut app = load(&f.repo, None, Opts::default()).unwrap();
    assert!(app.flat.is_empty(), "nothing staged");
    open_commit_source(&mut app, &f.repo);
    assert!(matches!(app.source, Source::Commit(_)));
    on_key(&mut app, Key::Char(' ')); // pick hunk 0

    on_key(&mut app, Key::Tab);
    on_key(&mut app, Key::Down);
    on_key(&mut app, Key::Down);
    let dest = app.commits[app.commit_cursor].oid;
    on_key(&mut app, Key::Char('t'));
    assert_eq!(app.files[0].targets[0], Some(dest));

    let before = f.head();
    execute(&mut app, &f.repo); // arm
    assert!(app.pending_apply, "must arm, not refuse: {}", app.status);
    execute(&mut app, &f.repo); // apply
    assert!(app.applied, "applied despite a dirty worktree: {}", app.status);
    assert_ne!(f.head(), before, "branch moved");

    let wip = f.disk("f1.rs");
    assert_eq!(wip, "unrelated work in progress\n", "worktree never written");
}

#[test]
fn unstaged_work_folds_with_no_git_add_and_leaves_a_clean_status() {
    let f = staged_fixture();
    {
        let head = f.repo.head().unwrap().peel_to_commit().unwrap();
        f.repo.reset(head.as_object(), git2::ResetType::Hard, None).unwrap();
    }
    let text = f.disk("f.rs");
    assert!(text.contains("l2\n"), "fixture precondition");
    f.dirty("f.rs", text.replace("l2\n", "l2-FIXED\n"));

    let mut app = load(&f.repo, None, Opts::default()).unwrap();
    assert!(app.flat.is_empty(), "nothing is staged");
    open_unstaged_source(&mut app, &f.repo);
    assert_eq!(app.source, Source::Unstaged);
    assert_eq!(app.flat.len(), 1, "the unstaged hunk is offered");
    assert!(app.files[0].targets[0].is_some(), "and blame prefilled its target");

    let before = f.head();
    on_key(&mut app, Key::Enter); // arm
    execute(&mut app, &f.repo);
    on_key(&mut app, Key::Enter); // apply
    execute(&mut app, &f.repo);
    assert!(app.applied, "applied: {}", app.status);
    assert_ne!(f.head(), before, "the branch moved");

    let tip = f.repo.head().unwrap().peel_to_commit().unwrap();
    let blob = blob_at(&f.repo, &tip.tree().unwrap(), "f.rs");
    assert!(String::from_utf8_lossy(&blob).contains("l2-FIXED"), "folded into the stack");

    let on_disk = f.disk("f.rs");
    assert!(on_disk.contains("l2-FIXED"), "worktree untouched");
    let mut o = git2::StatusOptions::new();
    o.include_untracked(false);
    let statuses = f.repo.statuses(Some(&mut o)).unwrap();
    assert!(
        statuses.iter().all(|s| !s.status().is_index_modified() && !s.status().is_index_deleted()),
        "no phantom STAGED reversal: {:?}",
        statuses.iter().map(|s| (s.path().map(String::from), s.status())).collect::<Vec<_>>()
    );
}

#[test]
fn the_unstaged_source_ignores_what_is_already_staged() {
    let f = staged_fixture(); // f.rs already has a STAGED edit
    let text = f.disk("f.rs");
    f.dirty("f.rs", format!("{text}TRAILING\n"));

    let mut app = load(&f.repo, None, Opts::default()).unwrap();
    let staged_hunks = app.flat.len();
    assert!(staged_hunks > 0, "fixture precondition: something is staged");
    open_unstaged_source(&mut app, &f.repo);
    assert_eq!(app.flat.len(), 1, "only the unstaged hunk, not the staged one");
    let body: String =
        app.files[0].hunks[0].lines.iter().map(|(_, t)| t.as_str()).collect();
    assert!(body.contains("TRAILING"), "and it is the unstaged one: {body}");
}

#[test]
fn the_phantom_row_commits_picked_hunks_at_the_tip() {
    let f = staged_fixture();
    let mut app = load(&f.repo, None, Opts::default()).unwrap();
    let before = f.head();
    let height = app.commits.len();
    assert!(app.has_phantom(), "a staged source offers the new-commit row");
    assert!(app.phantom_is_tip(), "and it means the tip, not a split");

    on_key(&mut app, Key::Home); // the phantom sits above the newest
    assert!(app.on_phantom());
    assert!(render_at(&app, 100, 30).contains("+ new commit at the tip"), "and says so");
    on_key(&mut app, Key::Char('t')); // route the hunks there

    preview(&mut app, &f.repo);
    assert!(app.status.contains("nothing below it moves"), "{}", app.status);

    on_key(&mut app, Key::Enter);
    execute(&mut app, &f.repo);
    assert!(app.input.is_some(), "the prompt is the confirmation");
    for c in "add the fix".chars() {
        on_key(&mut app, Key::Char(c));
    }
    assert_eq!(on_key(&mut app, Key::Enter), Flow::Submit);
    submit_prompt(&mut app, &f.repo);

    let head = f.repo.head().unwrap().peel_to_commit().unwrap();
    assert_eq!(oid(head.parent(0).unwrap().id()), before, "the old tip is its parent — nothing rewritten");
    assert_eq!(head.summary().unwrap(), "add the fix");
    assert_eq!(app.commits.len(), height + 1, "and the stack grew by one");
    let blob = blob_at(&f.repo, &head.tree().unwrap(), "f.rs");
    assert!(String::from_utf8_lossy(&blob).contains("L2"), "carrying the picked hunk");
}

#[test]
fn the_file_filter_narrows_the_list_and_the_cursor_follows_it() {
    let mut a = app(3, 1);
    a.move_files = vec!["a.txt".into(), "src/b.rs".into(), "src/c.rs".into()];
    a.source = Source::Files;
    a.focus = Pane::Right;

    on_key(&mut a, Key::Char('/'));
    assert!(a.input.is_some(), "/ opens the filter");
    for c in "src/".chars() {
        on_key(&mut a, Key::Char(c));
    }
    assert_eq!(a.visible_files(), vec!["src/b.rs", "src/c.rs"], "applied as typed");
    on_key(&mut a, Key::Enter); // put the prompt away, keep the filter
    a.input = None;

    on_key(&mut a, Key::Down);
    assert_eq!(a.visible_files()[a.move_cursor], "src/c.rs", "the cursor indexes what is shown");
    assert!(render_at(&a, 100, 30).contains("2 of 3 file"), "and the pane says it is narrowed");

    on_key(&mut a, Key::Char('/'));
    on_key(&mut a, Key::Esc);
    assert_eq!(a.visible_files().len(), 3, "filter cleared");
}

#[test]
fn an_untracked_file_is_offered_by_the_unstaged_source() {
    let f = staged_fixture();
    f.dirty(".gitignore", "junk.log\n");
    f.dirty("junk.log", "noise\n");
    f.dirty("new_mod.rs", "pub fn hello() {}\n");

    let mut app = load(&f.repo, None, Opts::default()).unwrap();
    open_unstaged_source(&mut app, &f.repo);
    let paths: Vec<&str> = app.files.iter().map(|f| f.path.as_str()).collect();
    assert!(paths.contains(&"new_mod.rs"), "the untracked file is routable: {paths:?}");
    assert!(!paths.contains(&"junk.log"), "ignored files stay out: {paths:?}");
}

#[test]
fn empty_pane_teaches_the_commit_to_commit_flow() {
    let f = stack4();
    let mut app = load(&f.repo, None, Opts::default()).unwrap();
    assert!(app.status.contains("e on a commit"), "status points at `e`: {}", app.status);
    on_key(&mut app, Key::Tab);
    let text = render_at(&app, 100, 30);
    assert!(text.contains("BETWEEN commits"), "empty pane teaches both workflows");
}

#[test]
fn forward_move_reports_the_full_rewrite_span() {
    let mut a = app(4, 1);
    let (newest, oldest) = (a.commits[0].oid, a.commits[3].oid);
    a.source = Source::Commit(oldest); // source is the OLDEST commit
    a.files[0].selected[0] = true;
    a.files[0].targets[0] = Some(newest); // target is newer → forward move
    assert!(a.is_newer(newest, oldest));
    assert_eq!(a.rewrite_span(), 4, "span reaches back to the source commit");
}

#[test]
fn arming_warns_when_the_source_commit_will_be_dropped() {
    let f = multi_hunk_fixture();
    {
        let head = f.repo.head().unwrap().peel_to_commit().unwrap();
        f.repo.reset(head.as_object(), git2::ResetType::Hard, None).unwrap();
    }
    let mut app = load(&f.repo, None, Opts::default()).unwrap();
    open_commit_source(&mut app, &f.repo);
    let dest = app.commits[1].oid;
    for fe in app.files.iter_mut() {
        for i in 0..fe.selected.len() {
            fe.selected[i] = true;
            fe.targets[i] = Some(dest);
        }
    }
    execute(&mut app, &f.repo); // arms
    assert!(app.pending_apply);
    assert!(app.status.contains("DROPPED"), "warns about the empty commit: {}", app.status);
}

#[test]
fn arming_names_the_signatures_the_rewrite_would_destroy() {
    let f = stack4();
    let name = {
        let head = f.repo.head().unwrap();
        let name = head.name().unwrap().to_string();
        let c = head.peel_to_commit().unwrap();
        let p = c.parent(0).unwrap();
        let sig = f.repo.signature().unwrap();
        let buf = f
            .repo
            .commit_create_buffer(&sig, &sig, "c4", &c.tree().unwrap(), &[&p])
            .unwrap();
        let signed = f
            .repo
            .commit_signed(
                std::str::from_utf8(&buf).unwrap(),
                "-----BEGIN PGP SIGNATURE-----\n\nnope\n-----END PGP SIGNATURE-----",
                None,
            )
            .unwrap();
        f.repo.reference(&name, signed, true, "sign the tip").unwrap();
        name
    };
    assert!(f.repo.refname_to_id(&name).is_ok());

    let mut app = load(&f.repo, None, Opts::default()).unwrap();
    app.focus = Pane::Commits;
    app.commit_cursor = 1; // c3 — dropping it replays the signed tip
    app.mark_shape(true);
    execute(&mut app, &f.repo); // arm
    assert!(app.pending_apply, "{}", app.status);
    assert!(
        app.status.contains("1 GPG signature(s) will be LOST"),
        "the arming line must name the loss, got {}",
        app.status
    );
}

#[test]
fn esc_leaves_commit_source_back_to_staged() {
    let f = multi_hunk_fixture();
    let mut app = load(&f.repo, None, Opts::default()).unwrap();
    open_commit_source(&mut app, &f.repo);
    assert!(matches!(app.source, Source::Commit(_)));
    on_key(&mut app, Key::Esc); // right pane -> commits
    assert_eq!(app.focus, Pane::Commits);
    assert_eq!(on_key(&mut app, Key::Esc), Flow::ResetSource, "next Esc leaves the source");
    reset_to_staged(&mut app, &f.repo);
    assert_eq!(app.source, Source::Staged);
}

#[test]
fn e_is_ignored_outside_the_commit_list() {
    let f = multi_hunk_fixture();
    let mut app = load(&f.repo, None, Opts::default()).unwrap();
    on_key(&mut app, Key::Tab); // focus the hunk pane
    on_key(&mut app, Key::Char(' ')); // change the selection (staged starts all-on)
    let before = app.files[0].selected.clone();
    open_commit_source(&mut app, &f.repo); // must NOT reload and discard state
    assert_eq!(app.source, Source::Staged, "source unchanged from the wrong pane");
    assert_eq!(app.files[0].selected, before, "selection survives a mis-pressed `e`");
}

#[test]
fn accept_inference_does_not_wipe_destinations_in_commit_source() {
    let f = multi_hunk_fixture();
    let mut app = load(&f.repo, None, Opts::default()).unwrap();
    open_commit_source(&mut app, &f.repo);
    let dest = app.commits[1].oid;
    app.files[0].targets[0] = Some(dest);
    on_key(&mut app, Key::Char('a'));
    assert_eq!(app.files[0].targets[0], Some(dest), "a must not clear a picked destination");
}

#[test]
fn hunk_browser_lists_every_hunk_across_files_with_owner_targets() {
    let f = multi_hunk_fixture();
    let app = load(&f.repo, None, Opts::default()).unwrap();
    assert_eq!(app.files.len(), 2, "two changed files");
    assert_eq!(app.flat, vec![(0, 0), (0, 1), (1, 0), (1, 1)], "4 hunks in order");
    let a_t = app.files[0].targets.clone();
    let b_t = app.files[1].targets.clone();
    assert!(a_t.iter().all(|t| t.is_some()) && b_t.iter().all(|t| t.is_some()));
    assert_ne!(a_t[0], b_t[0], "different files routed to their own owners");
}

#[test]
fn every_hunk_row_names_its_file_so_context_survives_scrolling() {
    let f = multi_hunk_fixture();
    let mut app = load(&f.repo, None, Opts::default()).unwrap();
    on_key(&mut app, Key::Tab);
    on_key(&mut app, Key::End);
    assert_eq!(app.hunk_cursor, 3);
    let text = render_at(&app, 100, 30);
    assert!(text.contains("b.rs"), "the visible hunk rows still name their file");
}

#[test]
fn cursor_walks_hunks_one_by_one_in_order() {
    let f = multi_hunk_fixture();
    let mut app = load(&f.repo, None, Opts::default()).unwrap();
    on_key(&mut app, Key::Tab);
    for expected in 0..4 {
        assert_eq!(app.hunk_cursor, expected);
        assert_eq!(app.flat[app.hunk_cursor], app.flat[expected]);
        on_key(&mut app, Key::Down);
    }
    assert_eq!(app.hunk_cursor, 3, "clamps at the last hunk");
}

#[test]
fn space_toggles_only_the_hunk_under_the_cursor() {
    let f = multi_hunk_fixture();
    let mut app = load(&f.repo, None, Opts::default()).unwrap();
    on_key(&mut app, Key::Tab);
    on_key(&mut app, Key::Down); // hunk 1 = a.rs second hunk
    on_key(&mut app, Key::Char(' '));
    assert!(!app.files[0].selected[1], "cursor hunk deselected");
    assert!(app.files[0].selected[0], "sibling hunk untouched");
    assert!(app.files[1].selected.iter().all(|&s| s), "other file untouched");
    assert!(render_at(&app, 100, 30).contains("3/4 selected"));
}

#[test]
fn per_hunk_targets_are_independent() {
    let f = multi_hunk_fixture();
    let mut app = load(&f.repo, None, Opts::default()).unwrap();
    on_key(&mut app, Key::Tab);
    on_key(&mut app, Key::Down); // hunk 1 (a.rs, inferred → c1)
    on_key(&mut app, Key::Tab); // back to commits; cursor 0 = newest (c2)
    let picked = app.commits[app.commit_cursor].oid;
    assert_ne!(Some(picked), app.files[0].targets[0], "picking a DIFFERENT commit");
    on_key(&mut app, Key::Char('t'));
    assert_eq!(app.files[0].targets[1], Some(picked), "only hunk 1 retargeted");
    assert_ne!(app.files[0].targets[0], Some(picked), "hunk 0 keeps its inferred target");
}

#[test]
fn a_long_hunk_preview_is_capped_so_others_stay_visible() {
    let f = multi_hunk_fixture();
    let mut app = load(&f.repo, None, Opts::default()).unwrap();
    app.files[0].hunks[0].lines = (0..40).map(|i| (' ', format!("ctx{i}"))).collect();
    on_key(&mut app, Key::Tab);
    let text = render_at(&app, 100, 30);
    assert!(text.contains("more line(s)"), "long hunk is truncated with a marker");
    assert!(text.contains("a.rs"), "and the list still shows other rows");
}

#[test]
fn applies_with_a_merge_deeper_in_history() {
    let f = TestRepo::new();
    let commit = |msg: &str, body: &str| f.commit(msg, &[("f.rs", body)]);
    let base_body: String = (1..=10).map(|i| format!("l{i}\n")).collect();
    let base = commit("base", &base_body);
    let side = commit("side", &format!("{base_body}side\n"));
    let sib = f.dangling("sib", base, &[base]);
    f.merge_onto_head("merge", side, sib);
    let top_body = format!("{base_body}side\ntopline\n");
    commit("top", &top_body);
    let staged = top_body.replace("topline", "TOPLINE-EDITED");
    f.stage(&[("f.rs", &staged)]);

    let before = f.head();
    let mut app = load(&f.repo, None, Opts::default()).unwrap();
    assert_eq!(app.commits.len(), 1, "window stops at the merge");
    assert!(!app.flat.is_empty(), "the staged hunk loaded");
    execute(&mut app, &f.repo); // arm
    execute(&mut app, &f.repo); // apply
    assert!(app.applied, "apply must not trip over the merge below: {}", app.status);
    assert_ne!(f.head(), before);
}

#[test]
fn renders_move_file_list_in_move_mode() {
    let f = staged_fixture();
    let mut app = load(&f.repo, None, Opts::default()).unwrap();
    on_key(&mut app, Key::Char('m')); // the file source
    let text = render_to_text(&app);
    assert!(text.contains("[MOVE]"), "the file list is shown for Source::Files");
    assert!(text.contains("f.rs"), "tracked file listed");
}

#[test]
fn dropping_a_commit_from_the_tui_rewrites_the_branch() {
    let f = staged_fixture();
    let mut app = load(&f.repo, None, Opts::default()).unwrap();
    let tip = app.commits[0].oid; // newest-first
    on_key(&mut app, Key::Char('d'));
    assert!(matches!(app.shape, Shape::Drop(o) if o == tip));

    preview(&mut app, &f.repo);
    assert!(app.status.starts_with("clean, would move"), "{}", app.status);
    let before = f.head();
    assert_eq!(before, tip, "preview moved nothing");

    execute(&mut app, &f.repo); // arm
    assert!(app.pending_apply, "{}", app.status);
    assert_eq!(f.head(), before, "arming moves nothing");
    execute(&mut app, &f.repo); // apply
    assert!(app.applied, "{}", app.status);
    let head = f.repo.head().unwrap().peel_to_commit().unwrap();
    assert_eq!(head.summary(), Some("c1"), "the dropped commit is gone");
}

#[test]
fn a_pending_shape_edit_shows_in_the_commit_pane() {
    let f = staged_fixture();
    let mut app = load(&f.repo, None, Opts::default()).unwrap();
    on_key(&mut app, Key::Char('d'));
    let text = render_to_text(&app);
    assert!(text.contains("pending"), "the title names the pending edit: {text}");
    assert!(text.contains('✗'), "and the row is marked");
}

#[test]
fn the_stack_is_bounded_by_default_and_widened_by_base() {
    let f = tall_fixture(DEFAULT_STACK + 5);

    let app = load(&f.repo, None, Opts::default()).unwrap();
    assert_eq!(app.commits.len(), DEFAULT_STACK, "the default cap applies");
    assert!(app.base.is_some(), "and it is recorded as the replay bound");
    assert!(render_to_text(&app).contains("--base"), "the pane says how to widen it");

    let head = resolve(&f.repo, "HEAD").unwrap();
    let root = walk(&f.repo, git::linear_window(head)).unwrap().ids()[0];
    let wide = load(&f.repo, Some(root), Opts::default()).unwrap();
    assert_eq!(wide.commits.len(), DEFAULT_STACK + 4, "everything but the base itself");
    let near = f.nth_parent(f.head(), 1);
    let narrow = load(&f.repo, Some(near), Opts::default()).unwrap();
    assert_eq!(narrow.commits.len(), 1);
    assert_eq!(narrow.base, Some(near));
}

#[test]
fn a_reorder_in_a_bounded_view_leaves_the_history_below_it_alone() {
    let f = tall_fixture(DEFAULT_STACK + 5);
    let mut app = load(&f.repo, None, Opts::default()).unwrap();
    let (newest, second) = (app.commits[0].oid, app.commits[1].oid);

    on_key(&mut app, Key::Char(']')); // swap the two newest
    assert_eq!(app.commits[1].oid, newest);
    execute(&mut app, &f.repo); // arm
    execute(&mut app, &f.repo); // apply
    assert!(app.applied, "{}", app.status);

    let head = f.repo.head().unwrap().peel_to_commit().unwrap();
    assert_eq!(head.summary(), f.repo.find_commit(raw(second)).unwrap().summary());
    let mut n = 1;
    let mut c = head;
    while let Ok(p) = c.parent(0) {
        n += 1;
        c = p;
    }
    assert_eq!(n, DEFAULT_STACK + 5, "not one commit below the bound was lost");
}

#[test]
fn a_conflict_rule_reaches_the_tui() {
    let f = conflicting_fixture();

    let mut plain = load(&f.repo, None, Opts::default()).unwrap();
    plain.commit_cursor = 1; // c4, the middle of the three
    on_key(&mut plain, Key::Char('d'));
    preview(&mut plain, &f.repo);
    assert!(plain.status.starts_with("conflict"), "{}", plain.status);

    let opts = Opts { favor: Some(FileFavor::Theirs), ..Opts::default() };
    let mut app = load(&f.repo, None, opts).unwrap();
    app.commit_cursor = 1;
    on_key(&mut app, Key::Char('d'));
    preview(&mut app, &f.repo);
    assert!(app.status.starts_with("clean, would move"), "{}", app.status);
    execute(&mut app, &f.repo); // arm
    execute(&mut app, &f.repo); // apply
    assert!(app.applied, "{}", app.status);
    let head = f.repo.head().unwrap().peel_to_commit().unwrap();
    assert_eq!(head.summary(), Some("c5"));
    assert_eq!(head.parent(0).unwrap().summary(), Some("c3"), "c4 was dropped");
}

#[test]
fn applying_reloads_in_place_instead_of_quitting() {
    let f = staged_fixture();
    let mut app = load(&f.repo, None, Opts::default()).unwrap();
    let before = f.head();
    app.commit_cursor = 1;
    execute(&mut app, &f.repo); // arm
    execute(&mut app, &f.repo); // apply
    assert!(app.applied, "{}", app.status);

    let done = std::mem::take(&mut app.status);
    reload(&mut app, &f.repo, done.clone());
    let after = f.head();
    assert_ne!(after, before);
    assert_eq!(app.head, after, "the reloaded screen shows the NEW tip");
    assert!(!app.applied, "and is ready for the next edit");
    assert_eq!(app.commit_cursor, 1, "your place in the list is kept");
    assert_eq!(app.status, done, "the verdict survives the reload");
}

#[test]
fn u_undoes_the_last_transplant_with_no_gate() {
    let f = staged_fixture();
    let mut app = load(&f.repo, None, Opts::default()).unwrap();
    let before = f.head();
    execute(&mut app, &f.repo);
    execute(&mut app, &f.repo);
    assert!(app.applied, "{}", app.status);
    let rewritten = f.head();
    reload(&mut app, &f.repo, String::new());

    assert_eq!(on_key(&mut app, Key::Char('u')), Flow::Undo, "one key, no arming");
    undo_last(&mut app, &f.repo);
    assert_eq!(f.head(), before, "{}", app.status);
    assert!(app.status.contains("undone"), "{}", app.status);
    assert_eq!(app.head, before, "the screen reloaded onto the restored tip");

    undo_last(&mut app, &f.repo);
    assert_eq!(f.head(), rewritten, "{}", app.status);
}

#[test]
fn c_cycles_the_conflict_rule_and_changes_a_previews_outcome() {
    let f = conflicting_fixture();
    let mut app = load(&f.repo, None, Opts::default()).unwrap();
    app.commit_cursor = 1; // the middle of three commits touching one line
    on_key(&mut app, Key::Char('d'));
    preview(&mut app, &f.repo);
    assert!(app.status.starts_with("conflict"), "abort is the default: {}", app.status);
    assert!(!app.context_line().contains("rule:"), "no badge at the default");

    assert_eq!(on_key(&mut app, Key::Char('c')), Flow::Preview, "c re-previews");
    assert_eq!(app.opts.favor, Some(FileFavor::Ours));
    preview(&mut app, &f.repo);
    assert!(app.status.starts_with("clean, would move"), "{}", app.status);
    assert!(app.context_line().contains("rule:ours"), "{}", app.context_line());
    assert!(render_at(&app, 80, 24).contains("rule:ours"), "the badge is on screen");

    for want in ["theirs", "union"] {
        on_key(&mut app, Key::Char('c'));
        assert!(app.context_line().contains(want), "{}", app.context_line());
    }
    on_key(&mut app, Key::Char('c'));
    assert_eq!(app.opts.favor, None, "cycles back to abort");
    assert!(!app.context_line().contains("rule:"), "and the badge goes away");
}

#[test]
fn r_rewords_the_commit_under_the_cursor_and_keeps_its_body() {
    let f = staged_fixture();
    {
        let head = f.repo.head().unwrap().peel_to_commit().unwrap();
        let sig = f.repo.signature().unwrap();
        head.amend(Some("HEAD"), Some(&sig), Some(&sig), None, Some("c2\n\nwhy it exists\n"), None)
            .unwrap();
    }
    let mut app = load(&f.repo, None, Opts::default()).unwrap();
    on_key(&mut app, Key::Char('r'));
    assert_eq!(app.input.as_ref().unwrap().text, "c2", "prefilled with the summary");
    assert!(render_at(&app, 80, 24).contains("message: c2▏"), "the prompt is the status line");

    for c in " renamed".chars() {
        on_key(&mut app, Key::Char(c));
    }
    assert_eq!(on_key(&mut app, Key::Enter), Flow::Submit);
    submit_prompt(&mut app, &f.repo);
    assert!(app.status.contains("reworded"), "{}", app.status);

    let head = f.repo.head().unwrap().peel_to_commit().unwrap();
    assert_eq!(head.summary(), Some("c2 renamed"));
    assert_eq!(head.message(), Some("c2 renamed\n\nwhy it exists\n"), "the body survived");
    assert_eq!(app.commits[0].summary, "c2 renamed", "and the screen reloaded onto it");
}

#[test]
fn the_phantom_row_is_never_a_member_of_the_commit_list() {
    let f = multi_hunk_fixture();
    let mut app = load(&f.repo, None, Opts::default()).unwrap();
    let before: Vec<Oid> = app.commits.iter().map(|c| c.oid).collect();
    open_commit_source(&mut app, &f.repo);
    assert!(app.has_phantom());
    assert_eq!(app.commits.iter().map(|c| c.oid).collect::<Vec<_>>(), before);
    assert!(!app.commits.iter().any(|c| c.oid == phantom()));

    on_key(&mut app, Key::Tab); // to the commit list
    on_key(&mut app, Key::Home);
    assert!(app.on_phantom(), "Home lands on the phantom, above the newest");
    assert_eq!(app.commit_cursor, 0);
    on_key(&mut app, Key::Down);
    assert!(!app.on_phantom());
    assert_eq!(app.cursor_commit(), Some(before[0]), "Down lands on the NEWEST commit");
    on_key(&mut app, Key::Down);
    assert_eq!(app.cursor_commit(), Some(before[1]));
    on_key(&mut app, Key::Up);
    on_key(&mut app, Key::Up);
    assert!(app.on_phantom(), "Up walks back onto it");
    on_key(&mut app, Key::Up);
    assert!(app.on_phantom(), "and stops there");
}

#[test]
fn commit_verbs_are_inert_on_the_phantom_row() {
    let f = multi_hunk_fixture();
    let mut app = load(&f.repo, None, Opts::default()).unwrap();
    open_commit_source(&mut app, &f.repo);
    on_key(&mut app, Key::Tab);
    on_key(&mut app, Key::Home);
    assert!(app.on_phantom());
    let order: Vec<Oid> = app.commits.iter().map(|c| c.oid).collect();
    for k in ['d', 's', 'r', '[', ']'] {
        on_key(&mut app, Key::Char(k));
        assert!(matches!(app.shape, Shape::Unchanged), "'{k}' must not reshape from the phantom row");
        assert!(app.input.is_none(), "'{k}' must not prompt from the phantom row");
    }
    assert_eq!(app.commits.iter().map(|c| c.oid).collect::<Vec<_>>(), order);
    open_commit_source(&mut app, &f.repo);
    assert!(app.status.contains("press e on a commit"), "{}", app.status);
}

#[test]
fn t_on_the_phantom_row_splits_the_commit_by_hunk() {
    let f = two_hunk_commit_fixture();
    let repo = &f.repo;
    let mut app = load(repo, None, Opts::default()).unwrap();
    let c2 = app.commits[0].oid;
    open_commit_source(&mut app, repo);
    assert_eq!(app.flat.len(), 2, "fixture precondition: two separate hunks");
    assert!(render_at(&app, 100, 30).contains("⌁"), "the source commit is marked");

    on_key(&mut app, Key::Char(' '));
    on_key(&mut app, Key::Tab);
    on_key(&mut app, Key::Home); // the phantom sits above the newest
    assert!(app.on_phantom());
    let screen = render_at(&app, 100, 30);
    assert!(screen.contains("+ new commit here"), "the phantom row is drawn: {screen}");
    on_key(&mut app, Key::Char('t'));
    assert_eq!(app.files[0].targets[0], Some(phantom()));
    assert!(app.splits());

    preview(&mut app, repo);
    assert!(app.status.starts_with("clean, would move"), "{}", app.status);

    execute(&mut app, repo);
    assert_eq!(app.input.as_ref().unwrap().text, "c2 two unrelated edits (part 1)");
    assert!(render_at(&app, 80, 24).contains("message: c2 two"), "the prompt is on screen");
    app.input.as_mut().unwrap().text.clear();
    for c in "extract the first edit".chars() {
        on_key(&mut app, Key::Char(c));
    }
    assert_eq!(on_key(&mut app, Key::Enter), Flow::Submit);
    submit_prompt(&mut app, repo);
    assert!(app.status.contains("split"), "{}", app.status);

    let read = |c: &git2::Commit| {
        let b = c.tree().unwrap().get_path(Path::new("f.rs")).unwrap()
            .to_object(repo).unwrap().peel_to_blob().unwrap();
        String::from_utf8(b.content().to_vec()).unwrap()
    };
    let tip = repo.head().unwrap().peel_to_commit().unwrap();
    let mid = tip.parent(0).unwrap();
    assert_eq!(tip.summary(), Some("c2 two unrelated edits"), "the source keeps its message");
    assert_eq!(mid.summary(), Some("extract the first edit"), "the new commit is named");
    assert_eq!(mid.parent(0).unwrap().summary(), Some("c1 base"), "inserted before the source");
    let mid_txt = read(&mid);
    assert!(mid_txt.contains("FIRST-EDIT"), "the routed hunk went into the new commit");
    assert!(!mid_txt.contains("SECOND-EDIT"), "the unrouted hunk did NOT");
    let tip_txt = read(&tip);
    assert!(tip_txt.contains("FIRST-EDIT") && tip_txt.contains("SECOND-EDIT"), "tip has both");
    assert_ne!(oid(tip.id()), c2, "the source was rewritten, not left behind");
}

#[test]
fn a_split_takes_the_whole_selection_or_says_so() {
    let f = two_hunk_commit_fixture();
    let mut app = load(&f.repo, None, Opts::default()).unwrap();
    open_commit_source(&mut app, &f.repo);
    app.files[0].selected[0] = true;
    app.files[0].targets[0] = Some(phantom());
    app.files[0].selected[1] = true;
    app.files[0].targets[1] = Some(app.commits[1].oid);
    execute(&mut app, &f.repo);
    assert!(app.input.is_none(), "no prompt opens for a mix");
    assert!(app.status.contains("whole selection"), "{}", app.status);
}

#[test]
fn what_a_mixed_selection_wanted_is_reachable_in_two_applies() {
    let f = two_hunk_commit_fixture();
    let repo = &f.repo;
    let original_tip_tree = repo.head().unwrap().peel_to_commit().unwrap().tree().unwrap().id();

    let mut app = load(repo, None, Opts::default()).unwrap();
    open_commit_source(&mut app, repo);
    app.files[0].selected[0] = true;
    app.files[0].targets[0] = Some(phantom());
    execute(&mut app, repo); // opens the message prompt
    app.input.as_mut().unwrap().text = "extracted".into();
    submit_prompt(&mut app, repo);
    assert!(app.status.starts_with("split "), "{}", app.status);

    let mut app = load(repo, None, Opts::default()).unwrap();
    open_commit_source(&mut app, repo); // the (rewritten) tip
    assert_eq!(app.flat.len(), 1, "only the un-split hunk is left in it");
    app.files[0].selected[0] = true;
    app.files[0].targets[0] = Some(app.commits[2].oid); // c1, two rows older
    execute(&mut app, repo); // arm
    execute(&mut app, repo); // apply
    assert!(app.applied, "{}", app.status);

    let read = |c: &git2::Commit| {
        let b = c.tree().unwrap().get_path(Path::new("f.rs")).unwrap()
            .to_object(repo).unwrap().peel_to_blob().unwrap();
        String::from_utf8(b.content().to_vec()).unwrap()
    };
    let tip = repo.head().unwrap().peel_to_commit().unwrap();
    let bottom = tip.parent(0).unwrap();
    assert!(bottom.parent(0).is_err(), "two commits left: c1 and the split-off one");
    assert_eq!(tip.summary(), Some("extracted"), "the split-off commit");
    assert!(read(&tip).contains("FIRST-EDIT"), "carries the hunk routed to the phantom");
    assert!(read(&bottom).contains("SECOND-EDIT"), "and c1 carries the one routed to it");
    assert_eq!(
        tip.tree().unwrap().id(),
        original_tip_tree,
        "and the tip tree is byte-identical: the hunks were redistributed, not changed"
    );
}

#[test]
fn i_toggles_ignore_whitespace_and_shows_it_beside_the_rule() {
    let f = reindent_fixture();
    let mut app = load(&f.repo, None, Opts::default()).unwrap();
    on_key(&mut app, Key::Down);
    on_key(&mut app, Key::Char('f'));
    preview(&mut app, &f.repo);
    assert!(app.status.starts_with("conflict"), "the reindent collides: {}", app.status);
    assert!(!app.context_line().contains("ignore-ws"), "no badge at the default");

    assert_eq!(on_key(&mut app, Key::Char('i')), Flow::Preview, "i re-previews");
    assert!(app.opts.ignore_ws);
    preview(&mut app, &f.repo);
    assert!(app.status.starts_with("clean, would move"), "{}", app.status);
    assert!(app.context_line().contains("ignore-ws"), "{}", app.context_line());
    assert!(render_at(&app, 80, 24).contains("ignore-ws"), "the badge is on screen");

    on_key(&mut app, Key::Char('c'));
    assert!(app.context_line().contains("rule:ours · ignore-ws"), "{}", app.context_line());

    on_key(&mut app, Key::Char('i'));
    assert!(!app.opts.ignore_ws, "it toggles back off");
    assert!(!app.context_line().contains("ignore-ws"));
}

// ── errors ──

#[test]
fn a_detached_head_has_no_branch_to_rewrite() {
    let t = TestRepo::new();
    let c1 = t.commit("c1", &[("a.txt", "1\n")]);
    t.repo.set_head_detached(raw(c1)).unwrap();
    t.stage(&[("a.txt", "2\n")]);
    assert!(matches!(fix(&t.repo, "HEAD", &Opts::default()), Err(Error::DetachedHead)));
}

#[test]
fn a_move_and_a_drop_refuse_a_dirty_tree() {
    let t = TestRepo::new();
    let (_c1, c2, _c3) = independent(&t);
    let before = snapshot(&t);
    t.dirty("a.txt", "work in progress\n");
    let moved = mv(&t.repo, "c.txt", &c2.hex(), &Opts::default());
    assert!(matches!(moved, Err(Error::DirtyWorktree)), "got {moved:?}");
    let dropped = drop_commit(&t.repo, &c2.hex(), &Opts::default());
    assert!(matches!(dropped, Err(Error::DirtyWorktree)), "got {dropped:?}");
    assert_eq!(snapshot(&t), before);
    assert_eq!(t.disk("a.txt"), "work in progress\n");
}

#[test]
fn a_base_off_the_line_is_not_an_ancestor() {
    let t = TestRepo::new();
    let (c1, _c2, c3) = independent(&t);
    let side = t.dangling("side", c1, &[c1]);
    let r = walk(&t.repo, git::linear_commits(Some(side), c3));
    assert!(matches!(r, Err(Error::BaseNotAncestor)), "got {r:?}");
}

#[test]
fn a_missing_object_is_a_git_error() {
    let t = TestRepo::new();
    t.commit("c1", &[("a.txt", "1\n")]);
    let r = walk(&t.repo, git::linear_window(fake(7)));
    assert!(matches!(r, Err(Error::Git(_))), "got {r:?}");
}

// ── what holds of every run ──

#[test]
fn a_replay_asks_only_what_it_does_not_know() {
    let t = TestRepo::new();
    let (c1, _c2, c3) = independent(&t);
    let onto = oid(t.repo.find_commit(raw(c1)).unwrap().tree_id());
    let mut seen = Seen::new();
    let mut asked = 0;
    while let Ask::Need(q) = engine::pick(&seen, c3, onto, Merge::from(false)) {
        assert!(seen.look(&q).is_none(), "{q:?} is known");
        let a = look(&t.repo, &q);
        seen.learn(q, a);
        asked += 1;
    }
    assert_eq!(asked, 3, "the commit, its parent, and the merge");
}

#[test]
fn replaying_nothing_gives_the_same_tip() {
    let t = TestRepo::new();
    let (_c1, _c2, c3) = chained(&t);
    let r = replay(&t.repo, None, c3, Recipe::new(), true).unwrap();
    assert_eq!(r.tip, c3, "same trees, same authors, same messages: the same commits");
    assert!(r.dropped.is_empty());
    assert_eq!(r.map.len(), 3, "every commit has a place");
}

#[test]
fn a_path_reads_back_and_the_others_stay() {
    let t = TestRepo::new();
    let c1 = t.commit("c1", &[("src/a.rs", "a\n"), ("src/deep/b.rs", "b\n"), ("c.txt", "c\n")]);
    let tree = oid(t.repo.find_commit(raw(c1)).unwrap().tree_id());
    let blob = oid(t.repo.blob(b"new\n").unwrap());

    let put = ask(&t.repo, |s| engine::set_path(s, tree, "src/deep/n.rs", Some((blob, 0o100755))));
    let new = t.repo.find_tree(raw(put.unwrap())).unwrap();
    assert_eq!(blob_at(&t.repo, &new, "src/deep/n.rs"), b"new\n");
    assert_eq!(new.get_path(Path::new("src/deep/n.rs")).unwrap().filemode(), 0o100755);
    for (path, text) in [("src/a.rs", "a\n"), ("src/deep/b.rs", "b\n"), ("c.txt", "c\n")] {
        assert_eq!(blob_at(&t.repo, &new, path), text.as_bytes());
    }

    // the last file of a directory takes the directory with it
    let gone = ask(&t.repo, |s| engine::set_path(s, tree, "src/deep/b.rs", None)).unwrap();
    let gone = t.repo.find_tree(raw(gone)).unwrap();
    assert!(gone.get_path(Path::new("src/deep")).is_err());
    assert!(gone.get_path(Path::new("src/a.rs")).is_ok());
}

/// The actions of a rewrite, in order; the action at `broken` fails.
fn acted(repo: &Repository, mut r: Rewrite, broken: Option<usize>) -> (Vec<Action>, Option<Outcome>) {
    let mut log = Vec::new();
    loop {
        match r.next() {
            Step::Look(q) => {
                let a = look(repo, &q);
                r.hear(q, a);
            }
            Step::Act(a) => {
                let e = if broken == Some(log.len()) {
                    Event::Failed("broken".to_string())
                } else {
                    act(repo, &a)
                };
                log.push(a);
                if r.react(e).is_some() {
                    return (log, None);
                }
            }
            Step::Done(o, _) => return (log, Some(o)),
            Step::Fail(_) => return (log, None),
        }
    }
}

fn drop_of(t: &TestRepo, rev: Oid, opts: &Opts) -> Rewrite {
    let branch = head_branch(&t.repo).unwrap();
    let head = t.head();
    let stack = walk(&t.repo, recipe::stack(None, head)).unwrap();
    let shaped = recipe::drop_commit(&stack, head, rev).unwrap();
    ops::shape(branch, shaped, &Verb::Drop.message(rev), true, opts)
}

#[test]
fn the_refs_are_listed_first_and_the_checkout_comes_before_the_move() {
    let t = TestRepo::new();
    let (_c1, c2, c3) = independent(&t);
    branch_at(&t, "late", c3);
    let (log, outcome) = acted(&t.repo, drop_of(&t, c2, &Opts::default()), None);
    assert!(outcome.is_some());
    assert!(matches!(log[0], Action::ListRefs), "{log:?}");
    assert!(matches!(log[1], Action::Checkout(_)), "{log:?}");
    assert!(matches!(&log[2], Action::MoveRef { name, from, .. } if name.ends_with("master") && *from == c3));
    assert!(matches!(&log[3], Action::MoveRef { name, from, .. } if name == "refs/heads/late" && *from == c3));
    assert_eq!(log.len(), 4);
}

#[test]
fn a_dry_run_only_lists_refs() {
    let t = TestRepo::new();
    let (_c1, c2, c3) = independent(&t);
    branch_at(&t, "late", c3);
    let opts = Opts { dry_run: true, ..Opts::default() };
    let (log, outcome) = acted(&t.repo, drop_of(&t, c2, &opts), None);
    assert!(matches!(&log[..], [Action::ListRefs]), "{log:?}");
    let real = drop_commit(&t.repo, &c2.hex(), &Opts::default()).unwrap();
    let dry = outcome.unwrap();
    assert_eq!((dry.new_tip, dry.restacked), (real.new_tip, real.restacked));
}

#[test]
fn an_unreadable_listing_stops_the_rewrite() {
    let t = TestRepo::new();
    let (_c1, c2, _c3) = independent(&t);
    let before = snapshot(&t);
    let (log, outcome) = acted(&t.repo, drop_of(&t, c2, &Opts::default()), Some(0));
    assert!(outcome.is_none() && log.len() == 1, "{log:?}");
    assert_eq!(snapshot(&t), before);
}

#[test]
fn a_sibling_that_cannot_move_is_a_warning_and_no_failure() {
    let t = TestRepo::new();
    let (_c1, c2, c3) = independent(&t);
    branch_at(&t, "late", c3);
    let (_log, outcome) = acted(&t.repo, drop_of(&t, c2, &Opts::default()), Some(3));
    let o = outcome.expect("the branch has moved: the run succeeded");
    assert_eq!(t.branch_oid(), o.new_tip);
    assert!(o.restacked.is_empty());
    assert!(o.warnings.iter().any(|w| w.contains("late")), "{:?}", o.warnings);
}

#[test]
fn the_history_lists_every_run_and_marks_the_next_undo() {
    let t = TestRepo::new();
    let out = fixed(&t);
    undo(&t.repo, false).unwrap();
    let branch = head_branch(&t.repo).unwrap();
    let list = undo::undo_list(&branch_log(&t.repo, &branch).unwrap());
    assert_eq!(list.len(), 2, "the fix and its undo: {list:?}");
    assert!(list[0].next && !list[1].next);
    assert_eq!((list[0].old, list[0].new), (out.new_tip, out.old_tip), "newest first");
    assert!(list[1].message.starts_with("transplant: fix into "));
}

#[test]
fn a_preview_names_the_tip_that_the_apply_makes() {
    let f = staged_fixture();
    let mut app = load(&f.repo, None, Opts::default()).unwrap();
    preview(&mut app, &f.repo);
    let promised = app.status.clone();
    assert!(promised.starts_with("clean, would move"), "{promised}");
    execute(&mut app, &f.repo);
    execute(&mut app, &f.repo);
    assert!(app.applied);
    assert!(promised.contains(&f.head().short()), "{promised} but at {}", f.head().short());
}

#[test]
fn a_revert_undoes_an_apply() {
    let t = TestRepo::new();
    let (c1, c2, _c3) = chained(&t);
    let tree = |c: Oid| oid(t.repo.find_commit(raw(c)).unwrap().tree_id());
    let how = Merge::from(false);
    let edited = |tree: Oid, e: Edit| {
        ask(&t.repo, |s| engine::apply_edit(s, tree, &e, c2, how)).unwrap()
    };
    assert_eq!(edited(tree(c1), Edit::ApplyChange(c2)), tree(c2));
    assert_eq!(edited(tree(c2), Edit::RevertChange(c2)), tree(c1));
}

// ── files that cannot be cut into hunks ─────────────────────────────────────

/// Write `bytes` to `path` and stage it.
fn stage_bytes(t: &TestRepo, path: &str, bytes: &[u8]) {
    t.dirty(path, bytes);
    let mut idx = t.repo.index().unwrap();
    idx.add_path(Path::new(path)).unwrap();
    idx.write().unwrap();
}

#[test]
fn a_staged_file_with_a_nul_is_reported_as_skipped() {
    let f = staged_fixture();
    reset_hard(&f);
    stage_bytes(&f, "blob.bin", b"one\0two\n");
    f.commit_staged("add binary");
    stage_bytes(&f, "blob.bin", b"one\0TWO\n");

    let app = load(&f.repo, None, Opts::default()).unwrap();
    assert!(app.flat.is_empty());
    assert_eq!(app.skipped, vec!["blob.bin".to_string()]);
    assert!(app.status.contains("1 staged file(s) can't be hunk-folded"), "{}", app.status);
}

#[test]
fn a_file_with_a_nul_is_named_beside_the_hunks_that_fold() {
    let f = staged_fixture();
    reset_hard(&f);
    stage_bytes(&f, "blob.bin", b"one\0two\n");
    f.commit_staged("add binary");
    stage_bytes(&f, "blob.bin", b"one\0TWO\n");
    f.stage(&[("f.rs", &edit(&format!("{}extra\n", lines("l", 8)), &[(1, "L2")]))]);

    let app = load(&f.repo, None, Opts::default()).unwrap();
    assert_eq!(app.flat.len(), 1, "the text folds");
    assert_eq!(app.skipped, vec!["blob.bin".to_string()]);
    assert!(app.status.contains("1 file(s) not hunk-foldable"), "{}", app.status);
}

#[test]
fn a_commits_file_with_a_nul_is_reported_as_skipped() {
    let f = staged_fixture();
    reset_hard(&f);
    stage_bytes(&f, "blob.bin", b"one\0two\n");
    f.commit_staged("add binary");
    stage_bytes(&f, "blob.bin", b"one\0TWO\n");
    f.stage(&[("f.rs", &edit(&format!("{}extra\n", lines("l", 8)), &[(1, "L2")]))]);
    f.commit_staged("change both");

    let mut app = load(&f.repo, None, Opts::default()).unwrap();
    open_commit_source(&mut app, &f.repo);
    assert_eq!(app.flat.len(), 1, "the text is movable");
    assert_eq!(app.skipped, vec!["blob.bin".to_string()]);
    assert!(app.status.contains("1 file(s) not hunk-foldable"), "{}", app.status);
}

#[test]
fn an_unstaged_file_with_a_nul_is_reported_as_skipped() {
    let f = staged_fixture();
    reset_hard(&f);
    stage_bytes(&f, "blob.bin", b"one\0two\n");
    f.commit_staged("add binary");
    f.dirty("blob.bin", b"one\0TWO\n");

    let mut app = load(&f.repo, None, Opts::default()).unwrap();
    open_unstaged_source(&mut app, &f.repo);
    assert!(app.flat.is_empty());
    assert!(app.status.contains("1 unstaged file(s) can't be hunk-folded"), "{}", app.status);
}

#[test]
fn a_tree_that_cannot_be_told_clean_counts_as_dirty() {
    let f = staged_fixture();
    reset_hard(&f);
    let snap = |statuses: Option<Vec<Status>>| {
        let (old, new) = staged_trees(&f.repo).unwrap();
        Snapshot {
            branch: head_branch(&f.repo).unwrap(),
            head: f.head(),
            stack: walk(&f.repo, git::window(None, f.head())).unwrap(),
            decorations: Vec::new(),
            deltas: tree_deltas(&f.repo, &old, &new).unwrap(),
            paths: tracked_files(&old),
            statuses,
        }
    };
    assert!(!source::load(snap(Some(Vec::new())), None, Opts::default()).tree_dirty);
    assert!(source::load(snap(None), None, Opts::default()).tree_dirty);
}

// ── what one call undoes of another ─────────────────────────────────────────

#[test]
fn removing_a_path_undoes_setting_it() {
    let t = TestRepo::new();
    let c1 = t.commit("c1", &[("src/a.rs", "a\n"), ("c.txt", "c\n")]);
    let tree = oid(t.repo.find_commit(raw(c1)).unwrap().tree_id());
    let blob = oid(t.repo.blob(b"new\n").unwrap());
    let set = |tree: Oid, path: &str, entry: Option<(Oid, i32)>| {
        ask(&t.repo, |s| engine::set_path(s, tree, path, entry)).unwrap()
    };
    for path in ["n.txt", "src/n.rs", "fresh/deep/n.rs", "src//n.rs"] {
        let with = set(tree, path, Some((blob, 0o100644)));
        assert_ne!(with, tree);
        assert_eq!(set(with, path, None), tree, "{path}");
    }
    // and the other way round, with the directories that the removal emptied
    let a = oid(t.repo.blob(b"a\n").unwrap());
    let without = set(tree, "src/a.rs", None);
    assert_ne!(without, tree);
    assert_eq!(set(without, "src/a.rs", Some((a, 0o100644))), tree);
}

#[test]
fn a_dry_absorb_reports_what_the_run_does() {
    let t = TestRepo::new();
    let a = lines("a", 8);
    t.commit("c1", &[("src.rs", &a)]);
    t.commit("c2", &[("other.rs", "o\n")]);
    t.stage(&[("src.rs", &a.replace("a2\n", "A2\n")), ("brand.rs", "new\n")]);
    let before = snapshot(&t);
    let dry = collapse(&t.repo, None, &Opts { dry_run: true, ..Opts::default() }).unwrap();
    assert_eq!(snapshot(&t), before, "no ref has moved");
    assert!(t.is_staged("src.rs") && t.is_staged("brand.rs"), "and the index is left alone");
    let run = collapse(&t.repo, None, &Opts::default()).unwrap();
    assert_eq!((dry.folded, dry.orphans), (1, 1));
    assert_eq!((run.folded, run.orphans), (1, 1));
    assert_eq!(dry.routes, run.routes);
    let (dry, run) = (dry.outcome.unwrap(), run.outcome.unwrap());
    assert_eq!((dry.old_tip, dry.new_tip), (run.old_tip, run.new_tip));
    assert_eq!((dry.warnings, dry.restacked), (run.warnings, run.restacked));
    assert_eq!(t.branch_oid(), run.new_tip);
}

#[test]
fn a_dry_absorb_of_orphans_alone_has_no_outcome_either() {
    let t = TestRepo::new();
    t.commit("c1", &[("src.rs", "a\n")]);
    t.stage(&[("brand.rs", "new\n")]);
    let dry = collapse(&t.repo, None, &Opts { dry_run: true, ..Opts::default() }).unwrap();
    let run = collapse(&t.repo, None, &Opts::default()).unwrap();
    assert!(dry.outcome.is_none() && run.outcome.is_none());
    assert_eq!((dry.folded, dry.orphans), (run.folded, run.orphans));
}

// ── how far a move reads ────────────────────────────────────────────────────

fn id(b: u8) -> Oid {
    Oid::from_bytes(&[b; 20]).unwrap()
}

/// A commit with the tree `id(n + 100)` on top of `parent`.
fn scripted(n: u8, parent: Option<u8>) -> Answer {
    Answer::Commit(CommitInfo {
        tree: id(n + 100),
        parents: parent.map(id).into_iter().collect(),
        message: String::new(),
        summary: None,
        signed: false,
    })
}

/// Plan a move in a history of single numbers, each on top of the one before, where
/// `blob` tells which blob each commit has at the path: none where it has none, an
/// error where the tree cannot be read. With it, the commits that were read.
fn scripted_move(
    target: u8,
    head: u8,
    blob: impl Fn(u8) -> Result<Option<u8>, ()>,
) -> (Result<Plan, Error>, Vec<u8>) {
    let mut m = recipe::mv("f.txt", id(target), id(head));
    let mut read = Vec::new();
    loop {
        let q = match m.next() {
            Ask::Need(q) => q,
            Ask::Fail(e) => return (Err(e), read),
            Ask::Have(p) => return (Ok(p), read),
        };
        let a = match &q {
            Query::Reaches { .. } => Answer::Truth(true),
            Query::Commit(c) => {
                let n = (1..=head).find(|n| id(*n) == *c).expect("a commit of the history");
                read.push(n);
                scripted(n, if n > 1 { Some(n - 1) } else { None })
            }
            Query::Path { tree, .. } => {
                let n = (1..=head).find(|n| id(n + 100) == *tree).expect("a tree of the history");
                match blob(n) {
                    Ok(b) => Answer::Entry(b.map(|b| Entry {
                        id: id(b),
                        mode: 0o100644,
                        dir: false,
                    })),
                    Err(()) => Answer::Failed("unreadable".to_string()),
                }
            }
            q => panic!("not asked of a move: {q:?}"),
        };
        m.answer(q, a);
    }
}

#[test]
fn a_move_reads_no_further_than_the_file_is_carried() {
    // the file is in 3, 4 and 5; what is below 2 is never read
    let (plan, read) = scripted_move(5, 6, |n| Ok(if n >= 3 { Some(200) } else { None }));
    let plan = plan.unwrap();
    assert_eq!(plan.base, Some(id(2)));
    assert_eq!(plan.tip, id(6));
    let at: Vec<Oid> = plan.recipe.edits.iter().map(|(c, _)| *c).collect();
    assert_eq!(at, vec![id(4), id(3), id(5)], "removed newest first, then set at the target");
    assert!(matches!(&plan.recipe.edits[2].1, Edit::SetFile { blob, .. } if *blob == id(200)));
    assert_eq!(read, vec![5, 4, 3, 2]);
}

#[test]
fn a_move_stops_at_a_content_that_differs() {
    let (plan, read) = scripted_move(5, 5, |n| Ok(Some(if n == 3 { 201 } else { 200 })));
    assert!(matches!(plan, Err(Error::FileModified { commit, .. }) if commit == id(3)));
    assert_eq!(read, vec![5, 4, 3]);
}

#[test]
fn a_file_carried_from_the_root_is_stripped_down_to_it() {
    let (plan, read) = scripted_move(3, 3, |_| Ok(Some(200)));
    let plan = plan.unwrap();
    assert_eq!(plan.base, None);
    assert_eq!(plan.recipe.edits.len(), 3);
    assert_eq!(read, vec![3, 2, 1]);
}

#[test]
fn a_file_that_starts_at_the_target_has_nothing_to_move() {
    let (plan, read) = scripted_move(3, 4, |n| Ok(if n >= 3 { Some(200) } else { None }));
    assert!(matches!(plan, Err(Error::Empty(m)) if m.contains("nothing to move")));
    assert_eq!(read, vec![3, 2]);
}

#[test]
fn a_tree_that_cannot_be_read_is_passed_over_when_a_file_is_looked_for() {
    let (plan, _) = scripted_move(2, 5, |n| match n {
        3 => Err(()),
        4 | 5 => Ok(Some(200)),
        _ => Ok(None),
    });
    let plan = plan.unwrap();
    assert_eq!(plan.base, Some(id(1)));
    assert!(matches!(
        &plan.recipe.edits[..],
        [(c, Edit::SetFile { blob, .. })] if *c == id(2) && *blob == id(200)
    ));
    // where the target's own history cannot be read, no deletion is known of
    let (plan, _) = scripted_move(3, 4, |n| match n {
        1 => Err(()),
        4 => Ok(Some(200)),
        _ => Ok(None),
    });
    assert_eq!(plan.unwrap().base, Some(id(2)));
}

#[test]
fn a_file_that_no_commit_has_is_not_found() {
    let (plan, _) = scripted_move(2, 4, |_| Ok(None));
    assert!(matches!(plan, Err(Error::PathNotFound { path }) if path == "f.txt"));
}

// ── conversations come on ───────────────────────────────────────────────────

#[test]
fn no_conversation_asks_again_for_what_it_was_just_told() {
    let t = TestRepo::new();
    let (_c1, c2, _c3) = independent(&t);
    let mut asked: Vec<String> = Vec::new();
    let mut r = drop_of(&t, c2, &Opts { dry_run: true, ..Opts::default() });
    while let Step::Look(q) = r.next() {
        asked.push(format!("{q:?}"));
        let a = look(&t.repo, &q);
        r.hear(q, a);
    }
    assert!(asked.len() > 3);
    assert!(asked.windows(2).all(|w| w[0] != w[1]), "{asked:?}");

    let t = TestRepo::new();
    let (_c1, c2, c3) = chained(&t);
    let mut m = recipe::mv("src.rs", c2, c3);
    let mut asked: Vec<String> = Vec::new();
    while let Ask::Need(q) = m.next() {
        asked.push(format!("{q:?}"));
        let a = look(&t.repo, &q);
        m.answer(q, a);
    }
    assert!(asked.len() > 1);
    assert!(asked.windows(2).all(|w| w[0] != w[1]), "{asked:?}");

    // asked without an answer, it says the same again
    let mut m = recipe::mv("src.rs", c2, c3);
    let first = format!("{:?}", m.next());
    assert_eq!(format!("{:?}", m.next()), first);
}

// ── what is applied goes to where HEAD is then ──────────────────────────────

/// Type `text` into the reword prompt of the commit under the cursor, and press Enter.
fn reword_from_the_screen(app: &mut App, repo: &Repository, text: &str) {
    on_key(app, Key::Char('r'));
    for c in text.chars() {
        on_key(app, Key::Char(c));
    }
    assert_eq!(on_key(app, Key::Enter), Flow::Submit);
    submit_prompt(app, repo);
}

#[test]
fn a_reword_from_the_screen_keeps_a_commit_made_since_it_was_loaded() {
    let t = TestRepo::new();
    let (_c1, _c2, c3) = independent(&t);
    let mut app = load(&t.repo, None, Opts::default()).unwrap();
    let c4 = t.commit("c4", &[("d.txt", "4\n")]);
    reword_from_the_screen(&mut app, &t.repo, " again");
    assert!(app.status.starts_with(&format!("reworded {}", c3.short())), "{}", app.status);
    assert!(app.status.contains(&format!("(was {})", c4.short())), "{}", app.status);
    let head = t.repo.head().unwrap().peel_to_commit().unwrap();
    assert_eq!(head.summary(), Some("c4"));
    assert_eq!(head.parent(0).unwrap().summary(), Some("c3 again"));
    assert_eq!(t.read_at(t.head(), "d.txt").as_deref(), Some("4\n"));
}

#[test]
fn a_reword_from_the_screen_needs_a_branch() {
    let t = TestRepo::new();
    let (_c1, _c2, c3) = independent(&t);
    let mut app = load(&t.repo, None, Opts::default()).unwrap();
    t.repo.set_head_detached(raw(c3)).unwrap();
    reword_from_the_screen(&mut app, &t.repo, " again");
    assert_eq!(app.status, format!("not applied: {}", Error::DetachedHead.message()));
    assert_eq!(t.head(), c3);
}

#[test]
fn a_file_moved_from_the_screen_keeps_a_commit_made_since_it_was_loaded() {
    let t = TestRepo::new();
    let (_c1, c2, _c3) = independent(&t);
    let mut app = load(&t.repo, None, Opts::default()).unwrap();
    on_key(&mut app, Key::Char('m'));
    app.move_cursor = app.visible_files().iter().position(|f| f == "c.txt").unwrap();
    app.move_target = Some(c2);
    execute(&mut app, &t.repo);
    assert!(app.pending_apply, "{}", app.status);
    let c4 = t.commit("c4", &[("d.txt", "4\n")]);
    execute(&mut app, &t.repo);
    assert!(app.applied, "{}", app.status);
    assert!(app.status.contains(&format!("(was {})", c4.short())), "{}", app.status);
    assert_eq!(t.read_at(t.head(), "d.txt").as_deref(), Some("4\n"));
    let c2p = t.nth_parent(t.head(), 1);
    assert_eq!(t.read_at(c2p, "c.txt").as_deref(), Some("3\n"), "anchored at its target");
}

#[test]
fn a_file_moved_from_the_screen_needs_a_clean_tree_when_it_is_applied() {
    let t = TestRepo::new();
    let (_c1, c2, c3) = independent(&t);
    let mut app = load(&t.repo, None, Opts::default()).unwrap();
    on_key(&mut app, Key::Char('m'));
    app.move_cursor = app.visible_files().iter().position(|f| f == "c.txt").unwrap();
    app.move_target = Some(c2);
    execute(&mut app, &t.repo);
    t.stage(&[("a.txt", "dirty\n")]);
    execute(&mut app, &t.repo);
    assert!(!app.applied);
    assert_eq!(app.status, Error::DirtyWorktree.message());
    assert_eq!(t.head(), c3);
}

#[test]
fn a_shape_edit_from_the_screen_reshapes_the_branch_that_head_is_on() {
    let t = TestRepo::new();
    let (_c1, c2, c3) = independent(&t);
    let opts = Opts { no_restack: true, ..Opts::default() };
    let mut app = load(&t.repo, None, opts).unwrap();
    let loaded = app.branch.clone();
    branch_at(&t, "side", c3);
    t.repo.set_head("refs/heads/side").unwrap();
    on_key(&mut app, Key::Char('d'));
    preview(&mut app, &t.repo);
    assert!(app.status.starts_with("clean, would move"), "{}", app.status);
    execute(&mut app, &t.repo);
    execute(&mut app, &t.repo);
    assert!(app.applied, "{}", app.status);
    assert_eq!(oid_of(&t, "side"), c2);
    assert_eq!(oid(t.repo.refname_to_id(&loaded).unwrap()), c3, "the other branch stays");
}
