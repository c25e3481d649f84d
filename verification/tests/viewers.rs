use nixos_config::diff::{
    build_collapsed_view, build_diff_lines, diff_view_key, exec_command_line, find_hunks, no_differences, pair_changes,
    run, ChangeKind, DiffAction, DiffViewState, DisplayLine,
};
use nixos_config::json::JsonValue;
use nixos_config::keys::{is_quit, Key, KeyPress};
use nixos_config::show::{join_lines, save_outcome, show_key, ShowAction, ShowMode, ShowState};

fn s(x: &str) -> String {
    x.to_string()
}

fn k(code: Key) -> KeyPress {
    KeyPress { code, ctrl: false }
}

fn lines(v: &[&str]) -> Vec<String> {
    v.iter().map(|x| x.to_string()).collect()
}

#[test]
fn quit_keys() {
    assert!(is_quit(&k(Key::Char('q'))));
    assert!(is_quit(&KeyPress { code: Key::Char('c'), ctrl: true }));
    assert!(!is_quit(&k(Key::Char('c'))));
    assert!(!is_quit(&k(Key::Esc)));
}

#[test]
fn text_viewer_scrolls_and_searches() {
    let text = lines(&["alpha", "beta", "alphabet", "gamma"]);
    let mut st = ShowState::new();
    show_key(&mut st, &k(Key::Char('j')), &text, 2);
    assert_eq!(st.scroll, 1);
    show_key(&mut st, &k(Key::End), &text, 2);
    assert_eq!(st.scroll, 2);
    show_key(&mut st, &k(Key::Home), &text, 2);
    assert_eq!(st.scroll, 0);
    show_key(&mut st, &k(Key::Char('/')), &text, 2);
    assert_eq!(st.mode, ShowMode::Search);
    for c in "alph".chars() {
        show_key(&mut st, &k(Key::Char(c)), &text, 2);
    }
    show_key(&mut st, &k(Key::Enter), &text, 2);
    assert_eq!(st.search_matches, vec![0, 2]);
    assert_eq!(st.status_msg.as_deref(), Some("2 matches"));
    show_key(&mut st, &k(Key::Char('n')), &text, 2);
    assert_eq!(st.scroll, 2);
    assert_eq!(st.status_msg, None);
    show_key(&mut st, &k(Key::Char('n')), &text, 2);
    assert_eq!(st.scroll, 0);
    show_key(&mut st, &k(Key::Char('N')), &text, 2);
    assert_eq!(st.scroll, 2);
    show_key(&mut st, &k(Key::Char('/')), &text, 2);
    show_key(&mut st, &k(Key::Char('z')), &text, 2);
    show_key(&mut st, &k(Key::Enter), &text, 2);
    assert_eq!(st.status_msg.as_deref(), Some("No matches for 'z'"));
    assert!(matches!(show_key(&mut st, &k(Key::Char('q')), &text, 2), ShowAction::Quit));
}

#[test]
fn text_viewer_saves() {
    let text = lines(&["a = 1;", "b = 2;"]);
    let mut st = ShowState::new();
    show_key(&mut st, &k(Key::Char('s')), &text, 5);
    assert_eq!(st.mode, ShowMode::Save);
    for c in "out.nixx".chars() {
        show_key(&mut st, &k(Key::Char(c)), &text, 5);
    }
    show_key(&mut st, &k(Key::Backspace), &text, 5);
    match show_key(&mut st, &k(Key::Enter), &text, 5) {
        ShowAction::Save { path, text } => {
            assert_eq!(path, "out.nix");
            assert_eq!(text, "a = 1;\nb = 2;\n");
        }
        _ => panic!("expected a save"),
    }
    assert_eq!(st.mode, ShowMode::Normal);
    save_outcome(&mut st, &s("out.nix"), None);
    assert_eq!(st.status_msg.as_deref(), Some("Saved to out.nix"));
    save_outcome(&mut st, &s("out.nix"), Some(s("denied")));
    assert_eq!(st.status_msg.as_deref(), Some("Error: denied"));
    show_key(&mut st, &k(Key::Char('s')), &text, 5);
    assert!(matches!(show_key(&mut st, &k(Key::Enter), &text, 5), ShowAction::Continue));
}

#[test]
fn joining_lines() {
    assert_eq!(join_lines(&vec![]), "\n");
    assert_eq!(join_lines(&lines(&["x"])), "x\n");
    assert_eq!(join_lines(&lines(&["x", "", "y"])), "x\n\ny\n");
}

#[test]
fn pairing_changes() {
    let changes = vec![
        (ChangeKind::Equal, s("a\n")),
        (ChangeKind::Delete, s("b\n")),
        (ChangeKind::Delete, s("c\n")),
        (ChangeKind::Insert, s("B\n")),
        (ChangeKind::Equal, s("d")),
    ];
    let out = pair_changes(&changes);
    assert_eq!(out.len(), 4);
    assert_eq!(out[0].left.as_deref(), Some("a"));
    assert_eq!(out[1].left.as_deref(), Some("b"));
    assert_eq!(out[1].right.as_deref(), Some("B"));
    assert_eq!(out[1].tag, ChangeKind::Equal);
    assert_eq!(out[2].left.as_deref(), Some("c"));
    assert_eq!(out[2].right, None);
    assert_eq!(out[2].tag, ChangeKind::Delete);
    assert_eq!(out[3].right.as_deref(), Some("d"));
    assert_eq!(find_hunks(&out), vec![1]);
}

#[test]
fn side_by_side_lines() {
    let out = build_diff_lines("a\nb\nc\n", "a\nx\nc\n");
    assert_eq!(out.len(), 3);
    assert_eq!(out[1].left.as_deref(), Some("b"));
    assert_eq!(out[1].right.as_deref(), Some("x"));
    assert!(!no_differences(&out));
    assert!(no_differences(&build_diff_lines("same\n", "same\n")));
}

#[test]
fn collapsed_view_hides_far_lines() {
    let old: String = (0..20).map(|i| format!("l{}\n", i)).collect();
    let new = old.replace("l10\n", "L10\n");
    let d = build_diff_lines(&old, &new);
    let view = build_collapsed_view(&d);
    assert_eq!(view[0], DisplayLine::Separator(7));
    assert_eq!(view[1], DisplayLine::Real(7));
    assert_eq!(view[view.len() - 1], DisplayLine::Separator(6));
    assert_eq!(view.len(), 9);
}

#[test]
fn diff_viewer_keys() {
    let old: String = (0..20).map(|i| format!("l{}\n", i)).collect();
    let new = old.replace("l10\n", "L10\n");
    let d = build_diff_lines(&old, &new);
    let hunks = find_hunks(&d);
    let view = build_collapsed_view(&d);
    let mut st = DiffViewState { scroll: 0, collapsed: false };
    assert!(!diff_view_key(&mut st, &k(Key::Char('n')), 5, &d, &hunks, &view));
    assert_eq!(st.scroll, 10);
    assert!(!diff_view_key(&mut st, &k(Key::Char('e')), 5, &d, &hunks, &view));
    assert!(st.collapsed);
    assert_eq!(st.scroll, 4);
    assert!(diff_view_key(&mut st, &k(Key::Char('q')), 5, &d, &hunks, &view));
}

#[test]
fn diff_run_decides() {
    let a = JsonValue::Object(vec![(s("x"), JsonValue::Number(s("1")))]);
    let b = JsonValue::Object(vec![(s("x"), JsonValue::Number(s("2")))]);
    match run(&a, &b, Some("meld"), false) {
        DiffAction::Exec { command, old_nix, new_nix } => {
            assert_eq!(command, "meld");
            assert_eq!(old_nix, "{\n  x = 1;\n}\n");
            assert_eq!(new_nix, "{\n  x = 2;\n}\n");
        }
        _ => panic!("expected the external command"),
    }
    assert!(matches!(run(&a, &b, None, true), DiffAction::Viewer { .. }));
    match run(&a, &b, None, false) {
        DiffAction::Print { text, exit_code } => {
            assert_eq!(exit_code, 1);
            assert!(text.starts_with("--- a/config.nix\n+++ b/config.nix\n"));
            assert!(text.contains("-  x = 1;\n+  x = 2;\n"));
        }
        _ => panic!("expected a printed diff"),
    }
    match run(&a, &a, None, false) {
        DiffAction::Print { text, exit_code } => {
            assert_eq!(exit_code, 0);
            assert_eq!(text, "");
        }
        _ => panic!("expected a printed diff"),
    }
    assert_eq!(exec_command_line("diff -u", "/tmp/a", "/tmp/b"), "diff -u /tmp/a /tmp/b");
}

#[test]
fn diff_viewer_scroll_stays_in_view() {
    let old: String = (1..=30).map(|i| format!("l{}\n", i)).collect();
    let new = old.replace("l5\n", "five\n").replace("l25\n", "x\n");
    let dl = build_diff_lines(&old, &new);
    let hunks = find_hunks(&dl);
    let view = build_collapsed_view(&dl);
    let mut st = DiffViewState { scroll: 0, collapsed: true };
    let keys = [
        Key::End, Key::Char('n'), Key::Char('e'), Key::Char('n'), Key::Char('n'), Key::PageDown, Key::Char('j'),
        Key::Char('e'), Key::Char('N'), Key::Char('N'), Key::Char('G'), Key::Char('j'), Key::Char('e'), Key::End,
        Key::Char('e'), Key::PageUp, Key::Char('k'), Key::Home, Key::Char('N'),
    ];
    for code in keys {
        assert!(!diff_view_key(&mut st, &k(code), 3, &dl, &hunks, &view));
        let total = if st.collapsed { view.len() } else { dl.len() };
        assert!(st.scroll < total, "{:?} left {} of {}", code, st.scroll, total);
    }
}

#[test]
fn side_by_side_columns_hold_both_texts() {
    let dl = build_diff_lines("a\nb\nc\n", "a\nx\nc\nd");
    let left: Vec<String> = dl.iter().filter_map(|l| l.left.clone()).collect();
    let right: Vec<String> = dl.iter().filter_map(|l| l.right.clone()).collect();
    assert_eq!(left, lines(&["a", "b", "c"]));
    assert_eq!(right, lines(&["a", "x", "c", "d"]));
}
