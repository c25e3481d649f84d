use nixos_config::browse::{Focus, MillerState, Rect, Tint};
use nixos_config::browse_input::{InputEvent, Mode, PaneAreas};
use nixos_config::checks::{depth_fits, full_fits, short_fits, step_renders, tree_prints};
use nixos_config::deps::{build_deps_index, DepsIndex};
use nixos_config::diff::{build_collapsed_view, build_diff_lines, DisplayLine};
use nixos_config::diff_frame::{diff_frame, viewer_layout};
use nixos_config::frame::{frame_counters_have_room, frame_layout, pager_frame, render_frame, Panel};
use nixos_config::json::JsonValue;
use nixos_config::keys::{Key, KeyPress};
use nixos_config::panes::{
    pane_list_fits, render_dep_list, render_detail_info, render_pane_list, render_pane_row, Piece, Shade,
};
use nixos_config::results::{render_search_result_line, search_line_fits, search_result_line};
use nixos_config::theme::{bordered_inner, centered_rect, footer_pill, make_block, make_block_keyed};
use nixos_config::tree::{build_root_children, ConfigNode};

fn s(x: &str) -> String {
    x.to_string()
}

fn strs(v: &[&str]) -> Vec<String> {
    v.iter().map(|x| x.to_string()).collect()
}

fn obj(entries: Vec<(&str, JsonValue)>) -> JsonValue {
    JsonValue::Object(entries.into_iter().map(|(k, v)| (k.to_string(), v)).collect())
}

fn num(n: &str) -> JsonValue {
    JsonValue::Number(n.to_string())
}

fn texts(line: &[Piece]) -> Vec<String> {
    line.iter().map(|p| p.text.clone()).collect()
}

fn joined(line: &[Piece]) -> String {
    texts(line).concat()
}

fn sample_root() -> Vec<(String, ConfigNode)> {
    build_root_children(&obj(vec![
        ("boot", obj(vec![("loader", obj(vec![("timeout", num("5"))])), ("kernel", JsonValue::Str(s("linux")))])),
        ("networking", obj(vec![("hostName", JsonValue::Str(s("box")))])),
        ("alpha", JsonValue::Bool(true)),
    ]))
}

fn sample_deps() -> DepsIndex {
    build_deps_index(&JsonValue::Array(vec![obj(vec![
        ("accessor", JsonValue::Array(vec![JsonValue::Str(s("alpha"))])),
        ("accessed", JsonValue::Array(vec![JsonValue::Str(s("networking")), JsonValue::Str(s("hostName"))])),
    ])]))
}

fn leaf(v: JsonValue) -> ConfigNode {
    ConfigNode::Leaf(v)
}

#[test]
fn pane_row_pushes_suffix_to_the_edge() {
    let root = sample_root();
    let (name, node) = root.iter().find(|(n, _)| n == "boot").unwrap();
    let row = render_pane_row(name, node, None, true, false, 20);
    assert_eq!(texts(&row), vec![s("\u{f07b} "), s("boot"), " ".repeat(13), s("{2}")]);
    assert_eq!(row[0].fg, Some(Tint::Yellow));
    assert!(row[1].bold);
    assert_eq!(row[3].fg, Some(Tint::Comment));
    assert!(row.iter().all(|p| p.bg == Shade::Cursor));
}

#[test]
fn pane_row_cuts_a_long_name() {
    let name = s("averyveryverylongname");
    let node = leaf(JsonValue::Bool(true));
    let row = render_pane_row(&name, &node, None, false, false, 20);
    assert_eq!(texts(&row), vec![s("\u{f205} "), s("averyveryver..."), s(" "), s("true")]);
    assert_eq!(row[1].fg, Some(Tint::Cyan));
    assert_eq!(row[3].fg, Some(Tint::Green));
    assert!(!row[1].bold);
    assert!(row.iter().all(|p| p.bg == Shade::Reset));
}

#[test]
fn pane_list_pads_with_blank_lines() {
    let root = sample_root();
    assert!(pane_list_fits(&root, 0, 5, 30));
    let lines = render_pane_list(&root, None, Some(1), 0, 5, 30, None, &Vec::new());
    assert_eq!(lines.len(), 5);
    assert_eq!(lines[0][1].text, "boot");
    assert_eq!(lines[1][1].text, "networking");
    assert_eq!(lines[2][1].text, "alpha");
    assert_eq!(lines[1][0].bg, Shade::Cursor);
    assert!(lines[3].is_empty() && lines[4].is_empty());
    let narrow = render_pane_list(&root, None, None, 0, 2, 3, None, &Vec::new());
    assert!(narrow.iter().all(|l| l.is_empty()));
}

#[test]
fn empty_dependency_pane_says_none() {
    let root = sample_root();
    let lines = render_dep_list(&Vec::new(), None, 0, 3, 30, &root, None);
    assert_eq!(lines.len(), 3);
    assert_eq!(joined(&lines[0]), "  (none)");
    assert!(lines[1].is_empty() && lines[2].is_empty());
}

#[test]
fn dependency_rows_show_the_target_node() {
    let root = sample_root();
    let lines = render_dep_list(&strs(&["networking.hostName", "nowhere"]), Some(0), 0, 3, 40, &root, None);
    assert_eq!(lines[0][1].text, "networking.hostName");
    assert!(lines[0][1].bold);
    assert_eq!(lines[0][0].bg, Shade::Cursor);
    assert_eq!(lines[0].last().unwrap().text, "\"box\"");
    assert_eq!(texts(&lines[1]), vec![s("\u{f1b2} "), s("nowhere")]);
    assert!(lines[2].is_empty());
}

#[test]
fn detail_pane_shows_path_and_value() {
    let node = leaf(num("5"));
    let lines = render_detail_info(&strs(&["boot", "loader", "timeout"]), &node, 0, 40, 8);
    assert_eq!(lines.len(), 8);
    assert_eq!(texts(&lines[0]), vec![s("\u{f292} "), s("boot.loader.timeout")]);
    assert!(lines[1].is_empty());
    assert_eq!(joined(&lines[2]), "Value");
    assert_eq!(joined(&lines[3]), "\u{2500}".repeat(30));
    assert_eq!(joined(&lines[4]), "5");
    assert_eq!(lines[4][0].fg, Some(Tint::Magenta));
    assert!(lines[5..].iter().all(|l| l.is_empty()));
    let scrolled = render_detail_info(&strs(&["a"]), &node, 4, 10, 3);
    assert_eq!(joined(&scrolled[0]), "5");
    assert_eq!(joined(&scrolled[3 - 3]), "5");
    assert_eq!(joined(&render_detail_info(&strs(&["a"]), &node, 0, 10, 4)[3]), "\u{2500}".repeat(10));
}

#[test]
fn search_line_highlights_the_match() {
    let path = strs(&["services", "openssh", "enable"]);
    let node = leaf(JsonValue::Bool(true));
    assert!(search_line_fits(&path, &s("SSH")));
    let line = render_search_result_line(&path, &s("SSH"), false, 80, Some(&node), None);
    assert_eq!(
        texts(&line),
        vec![s("\u{f205} "), s("services"), s("."), s("open"), s("ssh"), s("."), s("enable")]
    );
    assert_eq!(line[1].fg, Some(Tint::Blue));
    assert_eq!(line[3].fg, Some(Tint::Blue));
    assert_eq!(line[4].fg, Some(Tint::White));
    assert_eq!(line[4].bg, Shade::Highlight);
    assert_eq!(line[5].fg, Some(Tint::Comment));
    assert_eq!(line[6].fg, Some(Tint::Cyan));
}

#[test]
fn search_line_highlight_crosses_a_dot() {
    let path = strs(&["boot", "loader"]);
    let line = render_search_result_line(&path, &s("t.l"), true, 80, None, None);
    assert_eq!(texts(&line), vec![s("? "), s("boo"), s("t"), s("."), s("l"), s("oader")]);
    assert_eq!(line[0].fg, Some(Tint::Comment));
    assert_eq!(line[3].bg, Shade::Highlight);
    assert_eq!(line[5].fg, Some(Tint::Fg));
    assert_eq!(line[1].bg, Shade::Cursor);
}

#[test]
fn search_line_without_match_or_query() {
    let path = strs(&["boot"]);
    let line = search_result_line(&path, &s(""), false, 80, None, None).unwrap();
    assert_eq!(texts(&line), vec![s("? "), s("boot")]);
    let line = search_result_line(&path, &s("zzz"), false, 80, None, None).unwrap();
    assert_eq!(texts(&line), vec![s("? "), s("boot")]);
}

#[test]
fn keyed_title_marks_the_first_key_letter() {
    let b = make_block_keyed("Dependencies", Some(3), 'p', true);
    assert_eq!(b.border, Tint::Magenta);
    assert_eq!(b.title.len(), 15);
    assert_eq!(b.title[3].text, "p");
    assert_eq!(b.title[3].fg, Some(Tint::Red));
    assert!(b.title.iter().enumerate().all(|(i, p)| i == 3 || p.fg != Some(Tint::Red)));
    assert_eq!(b.title[13].text, " (3)");
    assert_eq!(joined(&b.title), " Dependencies (3) ");
    let b = make_block_keyed("Browse", None, 'b', false);
    assert_eq!(b.border, Tint::Gutter);
    assert_eq!(b.title[1].fg, Some(Tint::Red));
    assert_eq!(joined(&b.title), " Browse ");
    let plain = make_block("Results", true);
    assert_eq!(joined(&plain.title), " Results ");
    assert!(plain.title[0].bold);
}

#[test]
fn footer_pill_has_key_and_description() {
    let p = footer_pill("q", "quit");
    assert_eq!(texts(&p), vec![s(" q "), s(" quit "), s(" ")]);
    assert_eq!(p[0].bg, Shade::KeyPill);
    assert_eq!(p[1].bg, Shade::DescPill);
    assert_eq!(p[1].fg, Some(Tint::Dark));
}

#[test]
fn borders_take_one_cell_from_each_side() {
    assert_eq!(bordered_inner(Rect { x: 0, y: 0, width: 10, height: 5 }), Rect { x: 1, y: 1, width: 8, height: 3 });
    assert_eq!(bordered_inner(Rect { x: 3, y: 4, width: 1, height: 1 }), Rect { x: 4, y: 5, width: 0, height: 0 });
    assert_eq!(bordered_inner(Rect { x: 3, y: 4, width: 0, height: 0 }), Rect { x: 3, y: 4, width: 0, height: 0 });
}

#[test]
fn centered_box_lies_inside() {
    let area = Rect { x: 0, y: 0, width: 100, height: 50 };
    let r = centered_rect(60, 70, area);
    assert_eq!((r.x, r.width), (20, 60));
    assert!(r.y + r.height <= 50 && r.height >= 34 && r.height <= 36);
}

#[test]
fn centered_box_on_a_small_screen() {
    assert_eq!(centered_rect(60, 70, Rect { x: 0, y: 0, width: 80, height: 24 }), Rect { x: 16, y: 4, width: 48, height: 16 });
    assert_eq!(centered_rect(60, 70, Rect { x: 0, y: 0, width: 100, height: 50 }), Rect { x: 20, y: 8, width: 60, height: 35 });
    assert_eq!(centered_rect(50, 50, Rect { x: 3, y: 2, width: 11, height: 5 }), Rect { x: 6, y: 3, width: 5, height: 3 });
    assert_eq!(centered_rect(60, 70, Rect { x: 0, y: 0, width: 37, height: 13 }), Rect { x: 7, y: 2, width: 23, height: 9 });
    assert_eq!(centered_rect(50, 50, Rect { x: 0, y: 0, width: 10, height: 10 }), Rect { x: 3, y: 3, width: 5, height: 5 });
    assert_eq!(centered_rect(33, 91, Rect { x: 5, y: 1, width: 203, height: 57 }), Rect { x: 72, y: 3, width: 67, height: 52 });
}

#[test]
fn viewer_layout_keeps_its_rows_in_order() {
    let l = viewer_layout(Rect { x: 0, y: 0, width: 30, height: 10 });
    assert_eq!(l.header, Rect { x: 0, y: 0, width: 30, height: 1 });
    assert_eq!(l.body, Rect { x: 0, y: 1, width: 30, height: 8 });
    assert_eq!(l.footer, Rect { x: 0, y: 9, width: 30, height: 1 });
}

fn panel_texts(p: &Panel) -> Vec<String> {
    p.lines.iter().map(|l| joined(l)).collect()
}

#[test]
fn pager_keeps_the_last_line_in_view() {
    let panels = pager_frame(&strs(&["a", "b"]), &strs(&["one", "two", "three"]), 10, Tint::Green, frame_layout(Rect {
        x: 0,
        y: 0,
        width: 40,
        height: 10,
    }));
    assert_eq!(panels.len(), 2);
    let block = panels[0].block.as_ref().unwrap();
    assert_eq!(joined(&block.title), " a.b ");
    assert_eq!(block.border, Tint::Blue);
    assert_eq!(panels[0].lines.len(), 7);
    assert_eq!(joined(&panels[0].lines[0]), "three");
    assert_eq!(panels[0].lines[0][0].fg, Some(Tint::Green));
    assert!(panels[0].lines[1..].iter().all(|l| l.is_empty()));
    let footer = &panels[1].lines[0];
    assert_eq!(footer.last().unwrap().text, "[3/3]");
    assert_eq!(panels[1].bg, Shade::Header);
}

#[test]
fn browse_frame_draws_every_pane() {
    let root = sample_root();
    let deps = sample_deps();
    let mut state = MillerState::new();
    let mut panes = PaneAreas::new();
    let screen = Rect { x: 0, y: 0, width: 120, height: 40 };
    assert!(frame_counters_have_room(&Mode::Normal, &state));
    let panels = render_frame(&Mode::Normal, &mut state, &root, &deps, &s("host"), &None, &mut panes, frame_layout(screen)).unwrap();
    assert_eq!(panels.len(), 8);
    assert_eq!(texts(&panels[0].lines[0])[0], " host ");
    assert_eq!(joined(&panels[0].lines[0]), " host  boot");
    assert_eq!(panels[2].lines[0][1].text, "boot");
    assert_eq!(panels[3].lines[0][1].text, "loader");
    assert_eq!(panels[7].lines[0].last().unwrap().text, "[1/3]");
    assert_eq!(panes.browse_count, 3);
    assert_eq!(panes.browse_inner.width + 2, panels[2].area.width);
    assert!(panels.iter().all(|p| !p.clear));
    let help = render_frame(&Mode::Help, &mut state, &root, &deps, &s("host"), &Some(s("Copied")), &mut panes, frame_layout(screen)).unwrap();
    assert_eq!(help.len(), 9);
    assert!(help[8].clear);
    assert_eq!(joined(&help[8].lines[0]), " Navigation");
    assert_eq!(joined(&help[8].lines[1]), format!("  {:28}Move cursor down", "j / \u{2193}"));
    assert_eq!(joined(help[8].lines.last().unwrap()), "  Press ? or Esc to close");
    assert_eq!(joined(&help[7].lines[0]), "  Copied ");
    assert_eq!(help[7].lines[0][1].bg, Shade::Status);
}

#[test]
fn browse_frame_clamps_the_cursor() {
    let root = sample_root();
    let deps = sample_deps();
    let mut state = MillerState::new();
    state.cursor = 9;
    let mut panes = PaneAreas::new();
    let screen = Rect { x: 0, y: 0, width: 80, height: 30 };
    let panels = render_frame(&Mode::Normal, &mut state, &root, &deps, &s("c"), &None, &mut panes, frame_layout(screen)).unwrap();
    assert_eq!(state.cursor, 2);
    assert_eq!(panels[7].lines[0].last().unwrap().text, "[3/3]");
    // The header shows no entry for a cursor past the end.
    assert_eq!(joined(&panels[0].lines[0]), " c ");
}

#[test]
fn search_frame_lists_results() {
    let root = sample_root();
    let deps = sample_deps();
    let mut state = MillerState::new();
    let mut panes = PaneAreas::new();
    let mode = Mode::Search {
        query: s("host"),
        results: vec![strs(&["networking", "hostName"])],
        cursor: 0,
        scroll: 0,
        right_focus: Focus::Middle,
        detail_scroll: 0,
        deps_cursor: 0,
        deps_scroll: 0,
    };
    let screen = Rect { x: 0, y: 0, width: 100, height: 30 };
    let panels = render_frame(&mode, &mut state, &root, &deps, &s("c"), &None, &mut panes, frame_layout(screen)).unwrap();
    assert_eq!(panels.len(), 7);
    assert_eq!(joined(&panels[0].lines[0]), " Search  1 results");
    assert_eq!(texts(&panels[1].lines[0])[1..].concat(), "networking.hostName");
    assert_eq!(panels[1].lines[0][0].bg, Shade::Cursor);
    assert_eq!(panel_texts(&panels[2])[0], "\u{f10d} networking.hostName");
    assert_eq!(joined(&panels[5].lines[0]), "host\u{2588}");
    assert_eq!(panels[6].lines[0].last().unwrap().text, "[1/1]");
    assert_eq!(panes.search_results_count, 1);
    assert_eq!(panes.search_revs_count, 1);
    assert_eq!(panels[4].lines[0][1].text, "alpha");
}

#[test]
fn side_by_side_frame_shows_both_sides() {
    let lines = build_diff_lines("a\nb\n", "a\nc\n");
    let view = build_collapsed_view(&lines);
    assert!(view.iter().all(|d| match d {
        DisplayLine::Real(i) => *i < lines.len(),
        DisplayLine::Separator(_) => true,
    }));
    let panels = diff_frame(&lines, &view, true, 0, viewer_layout(Rect { x: 0, y: 0, width: 80, height: 10 }), "old", "new");
    assert_eq!(panels.len(), 5);
    assert_eq!(joined(&panels[0].lines[0]), " old ");
    assert_eq!(panels[0].lines[0][0].fg, Some(Tint::TermRed));
    assert_eq!(panels[1].area.x, 40);
    assert_eq!(panel_texts(&panels[2]), vec![s("a"), s("b")]);
    assert_eq!(panel_texts(&panels[3]), vec![s("a"), s("c")]);
    assert_eq!(panels[2].lines[1][0].bg, Shade::DeleteLine);
    assert_eq!(panels[3].lines[1][0].bg, Shade::InsertLine);
    assert_eq!(panels[2].lines[0][0].bg, Shade::Reset);
    assert!(panels[2].rule && !panels[3].rule);
    assert_eq!(joined(&panels[4].lines[0]), " j/k:scroll n/N:hunk g/G:top/bot e:expand q:quit  [1-2/2]");
}

#[test]
fn side_by_side_frame_shows_hidden_runs() {
    let old: String = (1..=12).map(|i| format!("l{}\n", i)).collect();
    let new = old.replace("l12\n", "x\n");
    let lines = build_diff_lines(&old, &new);
    let view = build_collapsed_view(&lines);
    assert_eq!(view[0], DisplayLine::Separator(8));
    let panels = diff_frame(&lines, &view, true, 0, viewer_layout(Rect { x: 0, y: 0, width: 60, height: 6 }), "a", "b");
    assert_eq!(panel_texts(&panels[2])[0], "--- 8 lines hidden ---");
    assert_eq!(panels[2].lines[0][0].fg, Some(Tint::Faint));
    let full = diff_frame(&lines, &view, false, 2, viewer_layout(Rect { x: 0, y: 0, width: 60, height: 6 }), "a", "b");
    assert_eq!(panel_texts(&full[2])[0], "l3");
    assert!(joined(&full[4].lines[0]).ends_with("e:collapse q:quit  [3-6/12]"));
}

#[test]
fn renderings_fit_ordinary_values() {
    assert!(full_fits(&JsonValue::Str(s("hello"))));
    assert!(short_fits(&JsonValue::Array(vec![num("1"), num("2")])));
    assert!(depth_fits(&obj(vec![("a", obj(vec![("b", num("1"))]))])));
    let root = sample_root();
    assert!(tree_prints(&root));
    let enter = InputEvent::Key(KeyPress { code: Key::Enter, ctrl: false });
    assert!(step_renders(&enter, &Mode::Normal, &MillerState::new(), &root));
}

#[test]
fn opening_a_value_without_a_full_form_is_refused() {
    let long = JsonValue::Array(vec![JsonValue::Str("\u{e9}".repeat(41))]);
    assert!(!full_fits(&long));
    let root = build_root_children(&obj(vec![("a", long), ("b", num("1"))]));
    let mut state = MillerState::new();
    let open = InputEvent::Key(KeyPress { code: Key::Char('l'), ctrl: false });
    let down = InputEvent::Key(KeyPress { code: Key::Char('j'), ctrl: false });
    assert!(!step_renders(&open, &Mode::Normal, &state, &root));
    assert!(step_renders(&down, &Mode::Normal, &state, &root));
    assert!(step_renders(&open, &Mode::Help, &state, &root));
    state.cursor = 1;
    assert!(step_renders(&open, &Mode::Normal, &state, &root));
    state.cursor = 0;
    state.focus = Focus::Detail;
    assert!(step_renders(&open, &Mode::Normal, &state, &root));
}

#[test]
fn text_viewer_numbers_lines_and_marks_matches() {
    let mut state = nixos_config::show::ShowState::new();
    state.search_matches = vec![1];
    let lines = strs(&["alpha", "beta", "gamma", "delta", "epsilon", "zeta", "eta", "theta", "iota", "kappa"]);
    let panels = nixos_config::show_frame::show_frame(&state, &lines, "cfg", viewer_layout(Rect { x: 0, y: 0, width: 40, height: 5 }));
    assert_eq!(panels.len(), 3);
    assert_eq!(joined(&panels[0].lines[0]), " cfg   (10 lines)");
    assert_eq!(panel_texts(&panels[1]), vec![s(" 1 alpha"), s(" 2 beta"), s(" 3 gamma")]);
    assert_eq!(panels[1].lines[1][1].bg, Shade::Yellow);
    assert_eq!(panels[1].lines[0][1].bg, Shade::Reset);
    assert_eq!(joined(&panels[2].lines[0]), " j/k:scroll g/G:top/bot /:search s:save q:quit  [1-3/10]");
    state.status_msg = Some(s("2 matches"));
    let panels = nixos_config::show_frame::show_frame(&state, &lines, "cfg", viewer_layout(Rect { x: 0, y: 0, width: 40, height: 5 }));
    assert_eq!(joined(&panels[2].lines[0]), " 2 matches ");
}

#[test]
fn collapsed_view_stands_for_every_row() {
    let old: String = (1..=20).map(|i| format!("l{}\n", i)).collect();
    let new = old.replace("l10\n", "ten\n");
    let lines = build_diff_lines(&old, &new);
    let view = build_collapsed_view(&lines);
    let covered: usize = view
        .iter()
        .map(|d| match d {
            DisplayLine::Real(_) => 1,
            DisplayLine::Separator(c) => *c,
        })
        .sum();
    assert_eq!(covered, lines.len());
    assert_eq!(view.first(), Some(&DisplayLine::Separator(6)));
    assert_eq!(view.last(), Some(&DisplayLine::Separator(7)));
}

#[test]
fn keyed_title_without_the_key_has_no_red() {
    let b = make_block_keyed("Browse", Some(0), 'z', true);
    assert!(b.title.iter().all(|p| p.fg != Some(Tint::Red)));
    assert_eq!(joined(&b.title), " Browse (0) ");
}

#[test]
fn narrow_screen_stacks_the_dependency_panes() {
    let root = sample_root();
    let deps = sample_deps();
    let mut state = MillerState::new();
    state.cursor = 2;
    state.focus = Focus::Deps;
    state.deps_cursor = 5;
    let mut panes = PaneAreas::new();
    let screen = Rect { x: 0, y: 0, width: 100, height: 40 };
    let panels = render_frame(&Mode::Normal, &mut state, &root, &deps, &s("c"), &None, &mut panes, frame_layout(screen)).unwrap();
    assert_eq!(joined(&panels[0].lines[0]), " c  alpha");
    assert_eq!(panels[5].area.x, panels[6].area.x);
    assert!(panels[6].area.y > panels[5].area.y);
    assert_eq!(state.deps_cursor, 0);
    assert_eq!(panes.deps_count, 1);
    assert_eq!(panes.revs_count, 0);
    assert_eq!(panels[5].lines[0][1].text, "networking.hostName");
    assert_eq!(panels[5].lines[0][0].bg, Shade::Cursor);
    assert_eq!(joined(&panels[6].lines[0]), "  (none)");
    assert_eq!(joined(&panels[5].block.as_ref().unwrap().title), " Dependencies (1) ");
    let wide = render_frame(&Mode::Normal, &mut state, &root, &deps, &s("c"), &None, &mut panes, frame_layout(Rect {
        x: 0,
        y: 0,
        width: 140,
        height: 40,
    }))
    .unwrap();
    assert_eq!(wide[5].area.y, wide[6].area.y);
    assert!(wide[6].area.x > wide[5].area.x);
}
