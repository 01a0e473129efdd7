//! Names and messages as they are shown.

use git_transplant::absorb::Absorbed;
use git_transplant::git::{FileFavor, Merge};
use git_transplant::oid::Oid;
use git_transplant::ops::{
    clean_request, request, require_clean_unstaged, short_branch, staged_request, LogEntry, Status,
};
use git_transplant::report;
use git_transplant::rewrite::Outcome;
use git_transplant::tui::view::{help_area, status_tone, Area, Tone};
use git_transplant::tui::{body_of, truncate};
use git_transplant::undo::undo_list;
use git_transplant::Error;

#[test]
fn short_branch_strips_the_ref_prefix() {
    assert_eq!(short_branch("refs/heads/main"), "main");
    assert_eq!(short_branch("refs/heads/feature/x"), "x");
    assert_eq!(short_branch("refs/tags/v1"), "v1");
    assert_eq!(short_branch("main"), "main");
}

#[test]
fn outcome_prints_the_short_branch() {
    let o = Outcome {
        branch: "refs/heads/main".into(),
        old_tip: Oid::zero(),
        new_tip: Oid::zero(),
        warnings: vec![],
        restacked: vec![],
        dropped: vec![],
    };
    assert_eq!(o.short_branch(), "main");
}

#[test]
fn body_of_takes_everything_after_the_blank_line() {
    assert_eq!(body_of("just a summary\n"), "");
    assert_eq!(body_of("summary\n\nbody line 1\nbody line 2\n"), "body line 1\nbody line 2");
}

#[test]
fn a_long_name_ends_in_an_ellipsis() {
    assert_eq!(truncate("short", 5), "short");
    assert_eq!(truncate("shorter", 5), "shor…");
    assert_eq!(truncate("anything", 0), "…");
}

fn oid(b: u8) -> Oid {
    Oid::from_bytes(&[b; 20]).unwrap()
}

fn outcome() -> Outcome {
    Outcome {
        branch: "refs/heads/main".into(),
        old_tip: oid(0x1a),
        new_tip: oid(0x2b),
        warnings: vec!["tag v1 stays".into()],
        restacked: vec!["mid 1 -> 2".into()],
        dropped: vec![oid(0x3c)],
    }
}

#[test]
fn an_id_reads_back_and_has_a_short_form() {
    let bytes: Vec<u8> = (0..20).map(|i| 13 * i as u8).collect();
    let o = Oid::from_bytes(&bytes).unwrap();
    assert_eq!(o.bytes(), bytes);
    assert_eq!(o.hex(), "000d1a2734414e5b6875828f9ca9b6c3d0ddeaf7");
    assert_eq!(o.short(), "000d1a27");
    assert!(Oid::from_bytes(&bytes[..19]).is_none());
    assert_eq!(Oid::zero().hex(), "0".repeat(40));
}

#[test]
fn ids_are_ordered_by_their_bytes() {
    let (a, b) = (oid(1), oid(2));
    assert!(a.is_before(&b) && !b.is_before(&a) && !a.is_before(&a));
    let last = Oid::from_bytes(&[&[1u8; 19][..], &[2]].concat()).unwrap();
    assert!(a.is_before(&last) && last.is_before(&b));
}

#[test]
fn every_error_says_what_happened() {
    let c = oid(0x1a);
    let says = |e: Error, text: &str| assert_eq!(e.message(), text);
    says(Error::Git("gone".into()), "git error: gone");
    says(
        Error::Conflict { commit: c, path: None, suggested: None },
        "conflict while rewriting 1a1a1a1a",
    );
    says(
        Error::Conflict { commit: c, path: Some("cfg.txt".into()), suggested: Some(oid(0x2b)) },
        "conflict while rewriting 1a1a1a1a in cfg.txt — 2b2b2b2b owns those lines; \
         try `fix 2b2b2b2b` or `absorb`",
    );
    says(
        Error::MergeInRange { commit: c },
        "merge commit 1a1a1a1a in range; only linear history is supported",
    );
    says(Error::BaseNotAncestor, "base is not an ancestor of the tip");
    says(Error::TargetNotAncestor, "target is not an ancestor of HEAD");
    says(
        Error::DirtyWorktree,
        "working tree has unstaged/untracked changes; commit, stash, or clean first",
    );
    says(Error::PathNotFound { path: "a/b".into() }, "path not found: a/b");
    says(
        Error::FileModified { path: "a".into(), commit: c },
        "a is modified at 1a1a1a1a; move is not clean (aborting)",
    );
    says(Error::Empty("nothing to do".into()), "nothing to do");
    says(Error::DetachedHead, "HEAD is detached; check out a branch first");
    says(Error::NothingStaged, "nothing staged to fold; `git add` your fix first");
}

#[test]
fn an_outcome_is_reported_in_one_line() {
    let o = outcome();
    assert_eq!(
        report::report(&o, false),
        "main now at 2b2b2b2b (was 1a1a1a1a; undo: git-transplant undo)"
    );
    assert_eq!(
        report::report(&o, true),
        "main would move 1a1a1a1a -> 2b2b2b2b (dry run; nothing changed)"
    );
    assert_eq!(report::result_line(&o, false), report::report(&o, false));
    assert_eq!(report::result_line(&Outcome { new_tip: oid(0x1a), ..o }, false), "no change");
}

#[test]
fn siblings_drops_and_warnings_each_have_a_line() {
    let o = outcome();
    assert_eq!(
        report::report_restacks(&o, report::restack_verb(false), &vec!["tidy up".into()]),
        vec![
            "restacked mid 1 -> 2",
            "dropped 3c3c3c3c tidy up (became empty; its message is gone)",
        ]
    );
    assert_eq!(report::restack_verb(true), "would restack");
    assert_eq!(report::warning_lines(&o), vec!["warning: tag v1 stays"]);
}

#[test]
fn an_undo_is_reported_in_one_line() {
    let o = outcome();
    assert_eq!(
        report::undo_line(&o, false),
        "main restored to 2b2b2b2b (was 1a1a1a1a; redo: git-transplant undo)"
    );
    assert_eq!(
        report::undo_line(&o, true),
        "main would go back to 2b2b2b2b (from 1a1a1a1a) (dry run; nothing changed)"
    );
}

#[test]
fn the_undo_history_is_listed_newest_first() {
    let log = vec![
        LogEntry { old: oid(2), new: oid(3), message: "transplant: undo (x)".into() },
        LogEntry { old: oid(1), new: oid(2), message: "commit: by hand".into() },
        LogEntry { old: oid(0), new: oid(1), message: "transplant: x".into() },
    ];
    assert_eq!(
        report::list_undo("refs/heads/main", &undo_list(&log)),
        vec![
            "main: 2 git-transplant operation(s), newest first",
            "* 02020202 -> 03030303  transplant: undo (x)",
            "  00000000 -> 01010101  transplant: x",
            "(* = what `git-transplant undo` reverses, putting main back at 02020202)",
        ]
    );
    assert_eq!(
        report::list_undo("refs/heads/main", &undo_list(&vec![])),
        vec!["main: no git-transplant operations in its reflog"]
    );
}

#[test]
fn an_absorb_reports_its_routing() {
    let a = Absorbed {
        outcome: Some(outcome()),
        folded: 12,
        orphans: 3,
        routes: vec![
            ("a.rs".into(), "@@ -1 +1 @@".into(), oid(1)),
            ("a.rs".into(), "@@ -9 +9 @@".into(), oid(2)),
            ("b.rs".into(), "@@ -1 +1 @@".into(), oid(1)),
        ],
    };
    assert_eq!(
        report::routing_table(&a, &vec!["one".into(), "two".into(), "one".into()]),
        vec![
            "a.rs",
            "    @@ -1 +1 @@ -> 01010101 one",
            "    @@ -9 +9 @@ -> 02020202 two",
            "b.rs",
            "    @@ -1 +1 @@ -> 01010101 one",
        ]
    );
    assert_eq!(
        report::absorb_line(&a, false),
        "absorbed 12 hunk(s) (3 left staged); main now at 2b2b2b2b (was 1a1a1a1a; undo: git-transplant undo)"
    );
    assert_eq!(
        report::absorb_line(&Absorbed { outcome: None, ..a }, false),
        "nothing absorbed (3 hunk(s) had no home in range)"
    );
}

#[test]
fn the_first_conflict_rule_asked_for_wins() {
    assert_eq!(report::opts(false, true, true, true, false, false).favor, Some(FileFavor::Ours));
    assert_eq!(report::opts(false, false, true, true, false, false).favor, Some(FileFavor::Theirs));
    assert_eq!(report::opts(false, false, false, true, false, false).favor, Some(FileFavor::Union));
    let o = report::opts(true, false, false, false, true, false);
    assert_eq!((o.ignore_ws, o.favor, o.dry_run, o.no_restack), (true, None, true, false));
}

#[test]
fn a_merge_is_patient_and_follows_its_rule() {
    let plain = Merge::from(false).opts();
    assert_eq!((plain.patience, plain.ignore_whitespace, plain.file_favor), (true, false, None));
    let ours = Merge { ignore_ws: true, favor: Some(FileFavor::Ours) }.opts();
    assert_eq!((ours.ignore_whitespace, ours.file_favor), (true, Some(FileFavor::Ours)));
}

#[test]
fn a_status_is_toned_by_what_it_says() {
    assert!(status_tone("anything", true) == Tone::Armed);
    assert!(status_tone("CONFLICT while rewriting", false) == Tone::Bad);
    assert!(status_tone("clean, would move main", false) == Tone::Good);
    assert!(status_tone("main now at 1a1a1a1a", false) == Tone::Good);
    assert!(status_tone("back to staged hunks", false) == Tone::Plain);
}

#[test]
fn the_help_stays_on_the_screen() {
    let screen = |width, height| Area { x: 0, y: 0, width, height };
    assert_eq!(help_area(10, screen(100, 30)), Area { x: 18, y: 9, width: 64, height: 12 });
    assert_eq!(help_area(40, screen(40, 20)), Area { x: 1, y: 0, width: 38, height: 20 });
}

#[test]
fn a_request_fails_on_the_first_thing_that_is_wrong() {
    let branch = || Ok::<String, Error>("refs/heads/main".to_string());
    let gone = || Err::<Oid, Error>(Error::Git("gone".into()));
    let dirty = Status {
        wt_modified: false,
        wt_deleted: false,
        wt_renamed: false,
        wt_typechange: false,
        staged: true,
    };
    let q = request(branch(), Ok(oid(2)), Ok(oid(1))).unwrap();
    assert_eq!((q.branch.as_str(), q.head, q.rev), ("refs/heads/main", oid(2), oid(1)));
    assert!(matches!(request(Err(Error::DetachedHead), gone(), gone()), Err(Error::DetachedHead)));
    assert!(matches!(request(branch(), gone(), Err(Error::BaseNotAncestor)), Err(Error::Git(_))));

    let clean = |s: Vec<Status>| clean_request(branch(), Ok(s), Ok(oid(2)), gone());
    assert!(matches!(clean(vec![dirty]), Err(Error::DirtyWorktree)), "before the commit is looked for");
    assert!(matches!(clean(vec![]), Err(Error::Git(_))));

    let staged = |trees| staged_request(branch(), Ok(oid(2)), Ok(oid(1)), trees);
    assert!(matches!(staged(Ok((oid(7), oid(7)))), Err(Error::NothingStaged)));
    assert_eq!(staged(Ok((oid(7), oid(8)))).unwrap().rev, oid(1));
}

#[test]
fn only_what_is_changed_on_disk_keeps_a_fold_from_checking_out() {
    let staged = Status {
        wt_modified: false,
        wt_deleted: false,
        wt_renamed: false,
        wt_typechange: false,
        staged: true,
    };
    assert!(require_clean_unstaged(&vec![staged]).is_ok());
    let edited = Status { wt_deleted: true, ..staged };
    assert!(matches!(require_clean_unstaged(&vec![staged, edited]), Err(Error::DirtyWorktree)));
}
