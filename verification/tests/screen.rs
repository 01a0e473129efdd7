//! The keys, on a screen that no repository stands behind.

use git_transplant::git::FileFavor;
use git_transplant::oid::Oid;
use git_transplant::ops::Opts;
use git_transplant::tui::keys::on_key;
use git_transplant::tui::plan::recipe_groups;
use git_transplant::tui::{
    flatten, App, Ask, CommitRow, FileEntry, Flow, Key, Pane, Prompt, Shape, Source,
};

fn oid(b: u8) -> Oid {
    Oid::from_bytes(&[b; 20]).unwrap()
}

/// A screen with `n_commits` commits and one file of `n_hunks` hunks.
fn app(n_commits: usize, n_hunks: usize) -> App {
    let commits = (0..n_commits)
        .map(|i| CommitRow {
            oid: oid(i as u8 + 1),
            summary: format!("c{i}"),
            diff: None,
            refs: Vec::new(),
            signed: false,
        })
        .collect();
    let mut files = Vec::new();
    if n_hunks > 0 {
        files.push(FileEntry {
            path: "f.rs".into(),
            old_full: String::new(),
            hunks: Vec::new(),
            selected: vec![true; n_hunks],
            targets: vec![None; n_hunks],
            inferred: vec![Some(oid(1)); n_hunks],
            mode: 0o100644,
        });
    }
    let counts: Vec<usize> = files.iter().map(|f| f.selected.len()).collect();
    App {
        branch: "refs/heads/main".into(),
        head: oid(9),
        opts: Opts::default(),
        base: None,
        commits,
        files,
        flat: flatten(&counts),
        move_files: vec!["a.txt".into(), "src/b.rs".into()],
        focus: Pane::Commits,
        commit_cursor: 0,
        hunk_cursor: 0,
        move_cursor: 0,
        move_target: None,
        status: String::new(),
        applied: false,
        pending_apply: false,
        pending_quit: false,
        filter: String::new(),
        tree_dirty: false,
        skipped: Vec::new(),
        diff_scroll: 0,
        source: Source::Staged,
        source_base: oid(9),
        shape: Shape::Unchanged,
        input: None,
        phantom_cursor: false,
        help: false,
    }
}

#[test]
fn arrows_move_commit_list_by_default() {
    let mut a = app(3, 2);
    assert_eq!(a.focus, Pane::Commits);
    on_key(&mut a, Key::Down);
    assert_eq!(a.commit_cursor, 1, "Down moves the commit cursor with default focus");
}

#[test]
fn vim_keys_are_deliberately_not_bound() {
    for k in ['j', 'k', 'h', 'l'] {
        let mut a = app(3, 2);
        let before = (a.commit_cursor, a.hunk_cursor, a.focus, a.source, a.files[0].selected.clone(), a.files[0].targets.clone());
        assert_eq!(on_key(&mut a, Key::Char(k)), Flow::Continue);
        let after = (a.commit_cursor, a.hunk_cursor, a.focus, a.source, a.files[0].selected.clone(), a.files[0].targets.clone());
        assert_eq!(before, after, "'{k}' must be inert — no nav, no source/selection change");
    }
}

#[test]
fn home_and_end_jump_the_focused_list() {
    let mut a = app(4, 3);
    on_key(&mut a, Key::End);
    assert_eq!(a.commit_cursor, 3, "End → last commit");
    on_key(&mut a, Key::Home);
    assert_eq!(a.commit_cursor, 0, "Home → first commit");
    on_key(&mut a, Key::Tab); // focus hunks
    on_key(&mut a, Key::End);
    assert_eq!(a.hunk_cursor, 2, "End → last hunk");
}

#[test]
fn left_right_also_switch_panes() {
    let mut a = app(3, 2);
    on_key(&mut a, Key::Right);
    assert_eq!(a.focus, Pane::Right);
    on_key(&mut a, Key::Left);
    assert_eq!(a.focus, Pane::Commits);
}

#[test]
fn navigable_even_with_no_staged_hunks() {
    let mut a = app(3, 0); // empty hunks — the "felt dead" case
    on_key(&mut a, Key::Down);
    on_key(&mut a, Key::Down);
    assert_eq!(a.commit_cursor, 2, "commit list still navigable with zero hunks");
}

#[test]
fn down_moves_hunk_cursor_when_right_focused() {
    let mut a = app(3, 3);
    on_key(&mut a, Key::Tab); // focus Right
    on_key(&mut a, Key::Down);
    assert_eq!(a.hunk_cursor, 1);
    assert_eq!(a.commit_cursor, 0, "commit cursor untouched while Right-focused");
}

#[test]
fn tab_toggles_focus() {
    let mut a = app(2, 1);
    on_key(&mut a, Key::Tab);
    assert_eq!(a.focus, Pane::Right);
    on_key(&mut a, Key::Tab);
    assert_eq!(a.focus, Pane::Commits);
}

#[test]
fn m_switches_the_source_to_the_file_list() {
    let mut a = app(2, 1);
    on_key(&mut a, Key::Char('m'));
    assert_eq!(a.source, Source::Files);
    assert_eq!(a.focus, Pane::Right, "the file list is what you're picking from");
    on_key(&mut a, Key::Down);
    assert_eq!(a.move_cursor, 1);
    assert_eq!(on_key(&mut a, Key::Char('m')), Flow::ResetSource);
}

#[test]
fn space_toggles_selected_hunk() {
    let mut a = app(2, 2);
    on_key(&mut a, Key::Tab);
    on_key(&mut a, Key::Char(' ')); // deselect hunk 0
    assert!(!a.files[0].selected[0]);
}

#[test]
fn t_sets_hunk_target_to_commit_under_cursor() {
    let mut a = app(3, 2);
    on_key(&mut a, Key::Down); // commit_cursor -> 1
    on_key(&mut a, Key::Char('t'));
    assert_eq!(a.files[0].targets[0], Some(oid(2)));
}

#[test]
fn route_all_to_cursor_sets_every_selected_target() {
    let mut a = app(3, 3);
    on_key(&mut a, Key::Down); // -> commit 1
    on_key(&mut a, Key::Char('f')); // f = fix-all→cursor
    assert!(a.files[0].targets.iter().all(|&t| t == Some(oid(2))));
}

#[test]
fn accept_inference_resets_targets() {
    let mut a = app(3, 2);
    a.files[0].targets = vec![Some(oid(3)), None];
    on_key(&mut a, Key::Char('a')); // a = accept inference (absorb)
    assert_eq!(a.files[0].targets, vec![Some(oid(1)), Some(oid(1))]);
}

#[test]
fn file_source_sets_destination_with_t() {
    let mut a = app(3, 1);
    on_key(&mut a, Key::Char('m'));
    on_key(&mut a, Key::Tab); // back to the commit list
    on_key(&mut a, Key::Down); // commit 1
    on_key(&mut a, Key::Char('t'));
    assert_eq!(a.move_target, Some(oid(2)));
}

#[test]
fn renamed_keys_do_what_their_rebase_i_letters_say() {
    let mut a = app(3, 1);
    on_key(&mut a, Key::Down);
    let oid1 = a.commits[1].oid;
    on_key(&mut a, Key::Char('s'));
    assert!(matches!(a.shape, Shape::Squash(o) if o == oid1), "lowercase s squashes");
    on_key(&mut a, Key::Esc);
    assert_eq!(on_key(&mut a, Key::Char('e')), Flow::OpenCommit, "e opens hunks");
    assert_eq!(on_key(&mut a, Key::Char('u')), Flow::Undo, "u undoes");

    let mut b = app(3, 1);
    on_key(&mut b, Key::Char('S'));
    assert!(matches!(b.shape, Shape::Unchanged), "no shift key survives");
}

#[test]
fn flow_routing() {
    let mut a = app(2, 1);
    assert_eq!(on_key(&mut a, Key::Char('q')), Flow::Quit);
    assert_eq!(on_key(&mut a, Key::Char('p')), Flow::Preview);
    assert_eq!(on_key(&mut a, Key::Enter), Flow::Apply);
    assert_eq!(on_key(&mut a, Key::Down), Flow::Continue);
}

#[test]
fn recipe_groups_dedup_by_target() {
    let (a, b) = (oid(1), oid(2));
    let selected = [true, true, false, true];
    let targets = [Some(a), Some(b), Some(a), Some(a)];
    let groups = recipe_groups(&selected.to_vec(), &targets.to_vec());
    assert_eq!(groups.len(), 2, "two distinct targets among selected");
    let ga = groups.iter().find(|(t, _)| *t == a).unwrap();
    assert_eq!(ga.1, vec![true, false, false, true], "hunk 2 deselected, excluded");
    let gb = groups.iter().find(|(t, _)| *t == b).unwrap();
    assert_eq!(gb.1, vec![false, true, false, false]);
}

#[test]
fn recipe_groups_excludes_no_target_hunks() {
    let a = oid(1);
    let groups = recipe_groups(&vec![true, true], &vec![Some(a), None]);
    assert_eq!(groups.len(), 1);
    assert_eq!(groups[0].1, vec![true, false]);
}

#[test]
fn esc_steps_back_one_layer_at_a_time() {
    let mut a = app(3, 2);
    on_key(&mut a, Key::Char('m'));
    assert_eq!((a.source, a.focus), (Source::Files, Pane::Right));

    on_key(&mut a, Key::Esc); // right pane -> commit list
    assert_eq!(a.focus, Pane::Commits);
    assert_eq!(a.source, Source::Files, "the source is not skipped");

    assert_eq!(on_key(&mut a, Key::Esc), Flow::ResetSource);
    a.source = Source::Staged; // what reset_to_staged would produce

    on_key(&mut a, Key::Esc); // already home
    assert!(a.status.contains("q to quit"), "tells you how to exit: {}", a.status);
}

#[test]
fn esc_cancels_an_armed_apply_first() {
    let mut a = app(3, 2);
    a.pending_apply = true;
    on_key(&mut a, Key::Esc);
    assert!(!a.pending_apply);
    assert!(a.status.contains("cancelled"), "{}", a.status);
    assert_eq!(a.focus, Pane::Commits, "cancelling doesn't also navigate");
}

#[test]
fn a_pending_apply_survives_looking_but_not_editing() {
    for k in [Key::Down, Key::Up, Key::Tab, Key::Home, Key::End, Key::PageDown] {
        let mut a = app(3, 2);
        a.pending_apply = true;
        on_key(&mut a, k);
        assert!(a.pending_apply, "{k:?} only looks — the arm must survive");
    }
    for k in [Key::Char('t'), Key::Char(' '), Key::Char('d'), Key::Char('a')] {
        let mut a = app(3, 2);
        a.pending_apply = true;
        on_key(&mut a, k);
        assert!(!a.pending_apply, "{k:?} edits the plan — the arm must drop");
    }
}

#[test]
fn quit_confirms_only_when_there_is_routing_to_lose() {
    let mut a = app(3, 2);
    assert_eq!(on_key(&mut a, Key::Char('q')), Flow::Quit, "a fresh view quits instantly");

    let mut a = app(3, 2);
    on_key(&mut a, Key::Down); // commit 1
    on_key(&mut a, Key::Char('t')); // hand-route the cursor hunk there
    assert_eq!(on_key(&mut a, Key::Char('q')), Flow::Continue, "first q warns");
    assert!(a.status.contains("q again"), "and says what would be lost: {}", a.status);
    assert_eq!(on_key(&mut a, Key::Char('q')), Flow::Quit, "second q quits");

    let mut a = app(3, 2);
    on_key(&mut a, Key::Down);
    on_key(&mut a, Key::Char('t'));
    on_key(&mut a, Key::Char('q'));
    on_key(&mut a, Key::Up);
    assert_eq!(on_key(&mut a, Key::Char('q')), Flow::Continue, "the confirm re-arms");
}

#[test]
fn space_from_the_commit_pane_leaves_the_selection_alone() {
    let mut a = app(2, 2);
    assert_eq!(a.focus, Pane::Commits, "the TUI starts here");
    let before = a.files[0].selected.clone();
    on_key(&mut a, Key::Char(' '));
    assert_eq!(a.files[0].selected, before, "no hidden toggle");
    assert!(a.status.contains("Tab"), "and it says why: {}", a.status);
}

#[test]
fn any_key_closes_help_and_does_nothing_else() {
    for k in [Key::Char('d'), Key::Char('?'), Key::Esc, Key::Enter, Key::Down] {
        let mut a = app(3, 2);
        assert_eq!(on_key(&mut a, Key::Char('?')), Flow::Continue);
        assert!(a.help, "? opens help");
        let before = (a.commit_cursor, a.focus, a.source, a.pending_apply);
        assert_eq!(on_key(&mut a, k), Flow::Continue, "{k:?} must not act while help is up");
        assert!(!a.help, "{k:?} closes help");
        assert!(matches!(a.shape, Shape::Unchanged), "and edits no shape");
        assert_eq!(before, (a.commit_cursor, a.focus, a.source, a.pending_apply));
    }
}

#[test]
fn question_mark_types_into_an_open_prompt() {
    let mut a = app(3, 2);
    a.input = Some(Prompt { label: "reword", text: String::new(), what: Ask::Reword(oid(1)) });
    on_key(&mut a, Key::Char('?'));
    assert!(!a.help, "no popup while typing");
    assert_eq!(a.input.as_ref().unwrap().text, "?");
}

#[test]
fn bracket_keys_reorder_the_commit_list_and_esc_puts_it_back() {
    let mut a = app(3, 1);
    let before: Vec<Oid> = a.commits.iter().map(|c| c.oid).collect();
    on_key(&mut a, Key::Char(']'));
    assert_eq!(a.commit_cursor, 1, "the cursor follows the commit it moved");
    assert_eq!((a.commits[0].oid, a.commits[1].oid), (before[1], before[0]));
    assert!(matches!(a.shape, Shape::Reorder(_)));
    on_key(&mut a, Key::Esc);
    assert_eq!(a.commits.iter().map(|c| c.oid).collect::<Vec<_>>(), before);
    assert!(matches!(a.shape, Shape::Unchanged));
}

#[test]
fn reorder_stops_at_the_ends_of_the_stack() {
    let mut a = app(3, 1);
    on_key(&mut a, Key::Char('[')); // cursor is already on the newest
    assert_eq!(a.commit_cursor, 0);
    assert!(matches!(a.shape, Shape::Unchanged), "a no-op move arms nothing");
}

#[test]
fn d_and_s_mark_the_commit_under_the_cursor() {
    let mut a = app(3, 1);
    on_key(&mut a, Key::Down);
    let oid = a.commits[1].oid;
    on_key(&mut a, Key::Char('d'));
    assert!(matches!(a.shape, Shape::Drop(o) if o == oid));
    on_key(&mut a, Key::Char('s'));
    assert!(matches!(a.shape, Shape::Squash(o) if o == oid), "a second mark replaces the first");
    on_key(&mut a, Key::Esc);
    assert!(matches!(a.shape, Shape::Unchanged));
}

#[test]
fn shape_keys_are_inert_outside_the_commit_pane() {
    let mut a = app(3, 2);
    on_key(&mut a, Key::Tab); // focus the hunk pane
    let order: Vec<Oid> = a.commits.iter().map(|c| c.oid).collect();
    for k in ['[', ']', 'd', 's'] {
        on_key(&mut a, Key::Char(k));
        assert!(matches!(a.shape, Shape::Unchanged), "'{k}' must not reshape from the hunk pane");
    }
    assert_eq!(a.commits.iter().map(|c| c.oid).collect::<Vec<_>>(), order);
}

#[test]
fn the_prompt_swallows_every_key() {
    let mut a = app(3, 2);
    a.pending_apply = true;
    on_key(&mut a, Key::Char('r'));
    assert!(a.input.is_some(), "r opens the prompt");
    assert!(!a.pending_apply, "r itself is a stray key, so it does cancel the arming");
    a.pending_apply = true; // but typing INSIDE the prompt must not

    for k in ['q', 'p', 'd', 's', 'm', ' '] {
        assert_eq!(on_key(&mut a, Key::Char(k)), Flow::Continue, "'{k}' must not act");
    }
    assert_eq!(a.input.as_ref().unwrap().text, "c0qpdsm ", "the keys were typed, not obeyed");
    assert!(matches!(a.shape, Shape::Unchanged), "no shape edit was made while typing");
    assert!(a.pending_apply, "typing must not trip the any-key cancel");

    on_key(&mut a, Key::Backspace);
    assert_eq!(a.input.as_ref().unwrap().text, "c0qpdsm");
    assert_eq!(on_key(&mut a, Key::Enter), Flow::Submit, "Enter submits, not applies");

    on_key(&mut a, Key::Char('r'));
    on_key(&mut a, Key::Esc);
    assert!(a.input.is_none());
    assert_eq!(on_key(&mut a, Key::Char('q')), Flow::Quit, "keys work again after");
}


#[test]
fn only_q_quits() {
    let others = [
        Key::Enter, Key::Esc, Key::Backspace, Key::Up, Key::Down, Key::Left, Key::Right, Key::Home,
        Key::End, Key::PageUp, Key::PageDown, Key::Tab, Key::BackTab, Key::Other,
    ];
    let letters = ('a'..='z').filter(|c| *c != 'q').map(Key::Char);
    for k in letters.chain(others) {
        let mut a = app(3, 2);
        assert_ne!(on_key(&mut a, k), Flow::Quit, "{k:?} must not quit");
    }
}

#[test]
fn space_twice_changes_nothing() {
    let mut a = app(2, 3);
    on_key(&mut a, Key::Tab);
    on_key(&mut a, Key::Down);
    let before = a.files[0].selected.clone();
    on_key(&mut a, Key::Char(' '));
    assert_ne!(a.files[0].selected, before);
    on_key(&mut a, Key::Char(' '));
    assert_eq!(a.files[0].selected, before);
}

#[test]
fn no_key_adds_or_loses_a_commit() {
    let mut a = app(4, 2);
    for k in "[]]d]s[tfa[]cimwe".chars() {
        on_key(&mut a, Key::Char(k));
        on_key(&mut a, Key::Down);
        let mut ids: Vec<Vec<u8>> = a.commits.iter().map(|c| c.oid.bytes()).collect();
        ids.sort();
        assert_eq!(ids, (1..=4u8).map(|b| vec![b; 20]).collect::<Vec<_>>(), "after {k:?}");
    }
}

#[test]
fn the_conflict_rules_come_round() {
    let mut a = app(2, 1);
    for want in [Some(FileFavor::Ours), Some(FileFavor::Theirs), Some(FileFavor::Union), None] {
        on_key(&mut a, Key::Char('c'));
        assert_eq!(a.opts.favor, want);
    }
}

#[test]
fn the_routing_counts_every_routed_hunk_once() {
    let mut a = app(3, 4);
    a.files[0].targets = vec![Some(oid(2)), Some(oid(1)), Some(oid(2)), None];
    assert_eq!(a.picked(), 4);
    let total: usize = a.routing().iter().map(|(_, n)| n).sum();
    assert_eq!(total, 3, "the hunk without a target goes nowhere");
    assert!(a.routing().contains(&(oid(2), 2)) && a.routing().contains(&(oid(1), 1)));
}

#[test]
fn no_filter_shows_every_file() {
    let mut a = app(1, 0);
    assert_eq!(a.visible_files(), a.move_files);
    a.filter = "b.r".into();
    assert_eq!(a.visible_files(), vec!["src/b.rs"]);
    a.filter = "nothing like it".into();
    assert!(a.visible_files().is_empty());
}
