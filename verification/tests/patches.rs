//! Hunks, and what selecting among them makes of a text.

use git_transplant::absorb::{
    better_target, collapse, diffs, route_all, suggest_among, suggest_target, with_suggestion, Delta,
    DeltaKind,
};
use git_transplant::inference::infer_targets;
use git_transplant::oid::Oid;
use git_transplant::patch::{apply_selected, hunks, split_keep_newlines, Hunk};
use git_transplant::tui::source::commit_diff_lines;
use git_transplant::Error;

const OLD: &str = "l1\nl2\nl3\nl4\nl5\nl6\nl7\nl8\nl9\nl10\nl11\n";
// change line 1 and line 11; the 3-line context windows don't touch -> two hunks
const NEW: &str = "L1\nl2\nl3\nl4\nl5\nl6\nl7\nl8\nl9\nl10\nL11\n";

fn two_hunks() -> Vec<Hunk> {
    let h = hunks(OLD.as_bytes(), NEW.as_bytes()).unwrap();
    assert_eq!(h.len(), 2, "expected two separated hunks, got {}", h.len());
    h
}

fn oid(b: u8) -> Oid {
    Oid::from_bytes(&[b; 20]).unwrap()
}

#[test]
fn select_all_reconstructs_new() {
    let h = two_hunks();
    assert_eq!(apply_selected(OLD, &h, &vec![true, true]), NEW);
}

#[test]
fn select_none_reconstructs_old() {
    let h = two_hunks();
    assert_eq!(apply_selected(OLD, &h, &vec![false, false]), OLD);
}

#[test]
fn select_subset_applies_only_those() {
    let h = two_hunks();
    assert_eq!(
        apply_selected(OLD, &h, &vec![true, false]),
        "L1\nl2\nl3\nl4\nl5\nl6\nl7\nl8\nl9\nl10\nl11\n"
    );
    assert_eq!(
        apply_selected(OLD, &h, &vec![false, true]),
        "l1\nl2\nl3\nl4\nl5\nl6\nl7\nl8\nl9\nl10\nL11\n"
    );
}

#[test]
fn hunk_line_math() {
    let h = two_hunks();
    assert_eq!(h[0].old_start, 1);
    assert_eq!((h[0].added(), h[0].removed()), (1, 1));
    assert_eq!(h[0].changed_old_lines(), &[1]);
    assert_eq!(h[1].changed_old_lines(), &[11]);
}

#[test]
fn a_hunk_shows_its_header_and_its_marked_lines() {
    let h = two_hunks();
    assert_eq!(h[0].header(), "@@ -1,4 +1,4 @@");
    let shown: Vec<(char, &str)> = h[0].shown().iter().map(|(c, s)| (*c, s.as_str())).collect();
    assert_eq!(shown, vec![('-', "l1"), ('+', "L1"), (' ', "l2"), (' ', "l3"), (' ', "l4")]);
}

#[test]
fn equal_texts_have_no_hunks() {
    assert!(hunks(OLD.as_bytes(), OLD.as_bytes()).unwrap().is_empty());
}

#[test]
fn a_new_file_is_one_hunk_on_nothing() {
    let h = hunks(b"", b"one\ntwo\n").unwrap();
    assert_eq!(h.len(), 1);
    assert_eq!((h[0].added(), h[0].removed()), (2, 0));
    assert!(h[0].changed_old_lines().is_empty());
    assert_eq!(apply_selected("", &h, &vec![true]), "one\ntwo\n");
}

#[test]
fn a_missing_newline_at_the_end_stays_missing() {
    let (old, new) = ("one\ntwo\nthree", "one\nTWO\nthree");
    let h = hunks(old.as_bytes(), new.as_bytes()).unwrap();
    assert_eq!(apply_selected(old, &h, &vec![true]), new);
    assert_eq!(apply_selected(old, &h, &vec![false]), old);
}

#[test]
fn the_lines_of_a_text_make_the_text() {
    for text in ["", "\n", "a", "a\n", "a\nb", "a\n\nb\n"] {
        assert_eq!(split_keep_newlines(text).concat(), text);
    }
    assert_eq!(split_keep_newlines("a\n\nb"), vec!["a\n", "\n", "b"]);
    assert_eq!(split_keep_newlines(""), vec![""], "an empty text is one empty line");
}

#[test]
fn a_hunk_belongs_to_the_newest_owner_in_the_window() {
    let h = hunks(b"a\nb\nc\n", b"A\nB\nC\n").unwrap();
    assert_eq!(h[0].blamed_lines(), vec![1, 2, 3]);
    let blame = vec![Some(oid(1)), Some(oid(3)), Some(oid(2))];
    let targets = |window: Vec<Oid>| infer_targets(&blame, &h, &window);
    assert_eq!(targets(vec![oid(1), oid(2), oid(3)]), vec![Some(oid(3))]);
    assert_eq!(targets(vec![oid(1), oid(2)]), vec![Some(oid(2))]);
    assert_eq!(targets(vec![oid(9)]), vec![None]);
}

#[test]
fn an_insertion_is_blamed_on_the_line_above() {
    let h = hunks(b"a\nb\nc\nd\ne\nf\n", b"a\nb\nc\nd\nnew\ne\nf\n").unwrap();
    assert!(h[0].changed_old_lines().is_empty());
    assert_eq!(h[0].blamed_lines(), vec![4]);
}

#[test]
fn a_diff_reads_line_by_line_and_ill_formed_bytes_are_replaced() {
    let pieces = vec![('F', b"diff --git a/f b/f\nindex 1..2\n".to_vec()), ('+', vec![0x63, 0xE9, 0x0A])];
    let lines = commit_diff_lines(&pieces);
    let shown: Vec<(char, &str)> = lines.iter().map(|(c, s)| (*c, s.as_str())).collect();
    assert_eq!(shown, vec![('F', "diff --git a/f b/f"), ('F', "index 1..2"), ('+', "c\u{FFFD}")]);
}

fn delta(kind: DeltaKind, old: &[u8], new: &[u8], owner: Oid) -> Delta {
    Delta {
        kind,
        path: Some("f.rs".into()),
        old: old.to_vec(),
        new: new.to_vec(),
        mode: 0o100644,
        blame: Ok(vec![Some(owner); 11]),
    }
}

#[test]
fn every_hunk_is_routed_or_left() {
    let ds = vec![
        delta(DeltaKind::Modified, OLD.as_bytes(), NEW.as_bytes(), oid(1)),
        delta(DeltaKind::Modified, b"a\n", b"b\n", oid(9)),
        delta(DeltaKind::Added, b"", b"new\n", oid(1)),
        delta(DeltaKind::Modified, b"a\n", &[0xFF, 0x0A], oid(1)),
        Delta { path: None, ..delta(DeltaKind::Modified, b"a\n", b"b\n", oid(1)) },
    ];
    let r = collapse(&ds, &vec![oid(1), oid(2)]).unwrap();
    assert_eq!(r.folds.len(), 2, "the two hunks that have a home");
    assert!(r.folds.iter().all(|f| f.target == oid(1) && f.path == "f.rs" && f.revert.is_none()));
    assert_eq!(r.folds[0].text, apply_selected(OLD, &two_hunks(), &vec![true, false]));
    assert_eq!(r.orphans.len(), 4, "out of the window, added, not text, without a name");
    let a = r.absorbed();
    assert_eq!((a.folded, a.orphans, a.routes.len()), (2, 4, 2));
    assert_eq!(a.routes[0], ("f.rs".to_string(), "@@ -1,4 +1,4 @@".to_string(), oid(1)));
}

#[test]
fn a_diff_that_fails_stops_the_routing() {
    let ds = vec![
        delta(DeltaKind::Added, b"", b"new\n", oid(1)),
        delta(DeltaKind::Modified, b"a\n", b"b\n", oid(1)),
    ];
    let window = vec![oid(1)];
    let mut made = diffs(&ds);
    assert_eq!(made.len(), 2);
    assert_eq!(route_all(&ds, &made, &window).unwrap().folds.len(), 1);
    assert_eq!(suggest_among(&ds, &made, &window, oid(5)), Some(oid(1)));

    made[1] = Err("no memory".to_string());
    let r = route_all(&ds, &made, &window);
    assert!(matches!(&r, Err(Error::Git(m)) if m == "no memory"), "got {r:?}");
    assert_eq!(suggest_among(&ds, &made, &window, oid(5)), None);

    let blamed = vec![Delta { blame: Err("no blame".into()), ..delta(DeltaKind::Modified, b"a\n", b"b\n", oid(1)) }];
    let r = collapse(&blamed, &window);
    assert!(matches!(&r, Err(Error::Git(m)) if m == "no blame"), "got {r:?}");
}

#[test]
fn a_better_target_is_another_one() {
    let window = vec![oid(1), oid(2), oid(3)];
    let homes = vec![Some(oid(1)), None, Some(oid(2))];
    assert_eq!(better_target(oid(1), &homes, &window), Some(oid(2)));
    assert_eq!(better_target(oid(2), &homes, &window), None, "it is what was asked for");
    assert_eq!(better_target(oid(1), &vec![None], &window), None);

    let ds = vec![delta(DeltaKind::Modified, b"a\n", b"b\n", oid(3))];
    let hint = suggest_target(&ds, &window, oid(1));
    assert_eq!(hint, Some(oid(3)));
    let e = Error::Conflict { commit: oid(1), path: None, suggested: None };
    assert!(matches!(with_suggestion(e, hint), Error::Conflict { suggested: Some(o), .. } if o == oid(3)));
    assert!(matches!(with_suggestion(Error::NothingStaged, hint), Error::NothingStaged));
}

#[test]
fn a_text_with_a_nul_has_no_hunks() {
    assert!(hunks(b"one\0two\n", b"one\0TWO\n").unwrap().is_empty());
}

#[test]
fn a_hunk_removes_as_many_lines_as_it_names() {
    let old = "a\nb\nc\nd\ne\nf\n";
    let new = "a\nB\nd\ne\nx\ny\nf\n";
    let all = hunks(old.as_bytes(), new.as_bytes()).unwrap();
    for h in &all {
        assert_eq!(h.removed(), h.changed_old_lines().len());
        assert!(h.removed() <= h.old_lines as usize);
    }
    assert_eq!(apply_selected(old, &all, &vec![true; all.len()]), new);
}

#[test]
fn hunks_are_placed_one_after_the_other() {
    let check = |old: &[u8], new: &[u8], n: usize| {
        let all = hunks(old, new).unwrap();
        assert_eq!(all.len(), n);
        for h in &all {
            let lines = h.changed_old_lines();
            assert_eq!(h.removed(), lines.len());
            assert!(lines.windows(2).all(|w| w[0] < w[1]), "{lines:?}");
            let covered = h.old_start()..h.old_start() + h.old_lines();
            assert!(lines.iter().all(|l| covered.contains(l)), "{lines:?} in {covered:?}");
        }
        for w in all.windows(2) {
            assert!(w[0].old_start() + w[0].old_lines() <= w[1].old_start());
        }
    };
    check(OLD.as_bytes(), NEW.as_bytes(), 2);
    check(OLD.as_bytes(), b"", 1);
    check(b"", OLD.as_bytes(), 1);
    check(OLD.as_bytes(), OLD.as_bytes(), 0);
    check(b"a\nb", b"a\nb\nc", 1);
    check(b"a\nb\n", b"b", 1);
    // the same of bytes that are no text
    let raw = |s: &str| s.replace('l', "~").bytes().map(|b| if b == b'~' { 0xE9 } else { b }).collect::<Vec<u8>>();
    check(&raw(OLD), &raw(NEW), 2);
    check(&raw(OLD), &raw(OLD), 0);
}

#[test]
fn a_hunk_tells_what_it_covers() {
    let h = two_hunks();
    assert_eq!((h[0].old_start(), h[0].old_lines()), (1, 4));
    assert_eq!((h[1].old_start(), h[1].old_lines()), (8, 4));
}
