use nixos_config::browse::{clamp_cursor, current_full_path, jump_to_path, rect_contains, value_color, Focus, MillerState, Rect, Tint};
use nixos_config::browse_input::{InputAction, InputEvent, Mode, MouseInput, MouseKind, PaneAreas};
use nixos_config::browse_step::{counters_have_room, handle_input};
use nixos_config::deps::build_deps_index;
use nixos_config::json::JsonValue;
use nixos_config::keys::{Key, KeyPress};
use nixos_config::tree::{build_root_children, ConfigNode};

fn s(x: &str) -> String {
    x.to_string()
}

fn strs(v: &[&str]) -> Vec<String> {
    v.iter().map(|x| x.to_string()).collect()
}

fn obj(entries: Vec<(&str, JsonValue)>) -> JsonValue {
    JsonValue::Object(entries.into_iter().map(|(k, v)| (k.to_string(), v)).collect())
}

fn num(n: &str) -> JsonValue {
    JsonValue::Number(n.to_string())
}

fn key(code: Key) -> InputEvent {
    InputEvent::Key(KeyPress { code, ctrl: false })
}

fn ch(c: char) -> InputEvent {
    key(Key::Char(c))
}

fn sample_root() -> Vec<(String, ConfigNode)> {
    build_root_children(&obj(vec![
        ("boot", obj(vec![("loader", obj(vec![("timeout", num("5"))])), ("kernel", JsonValue::Str(s("linux")))])),
        ("networking", obj(vec![("hostName", JsonValue::Str(s("box")))])),
        ("alpha", JsonValue::Bool(true)),
    ]))
}

fn sample_deps() -> nixos_config::deps::DepsIndex {
    build_deps_index(&JsonValue::Array(vec![obj(vec![
        ("accessor", JsonValue::Array(vec![JsonValue::Str(s("alpha"))])),
        ("accessed", JsonValue::Array(vec![JsonValue::Str(s("networking")), JsonValue::Str(s("hostName"))])),
    ])]))
}

struct Viewer {
    root: Vec<(String, ConfigNode)>,
    deps: nixos_config::deps::DepsIndex,
    mode: Mode,
    state: MillerState,
    status: Option<String>,
    panes: PaneAreas,
}

impl Viewer {
    fn new() -> Viewer {
        Viewer {
            root: sample_root(),
            deps: sample_deps(),
            mode: Mode::Normal,
            state: MillerState::new(),
            status: None,
            panes: PaneAreas::new(),
        }
    }

    fn send(&mut self, ev: InputEvent) -> InputAction {
        assert!(counters_have_room(&self.mode, &self.state));
        let count = nixos_config::tree::get_children_at_path(&self.root, &self.state.path).map(|c| c.len()).unwrap_or(0);
        handle_input(&ev, &mut self.mode, &mut self.state, &self.root, &self.deps, &mut self.status, &self.panes, 30, count)
    }
}

#[test]
fn clamp_keeps_cursor_in_view() {
    let (mut c, mut sc) = (10usize, 0usize);
    clamp_cursor(&mut c, &mut sc, 5, 3);
    assert_eq!((c, sc), (4, 2));
    let (mut c, mut sc) = (1usize, 4usize);
    clamp_cursor(&mut c, &mut sc, 5, 3);
    assert_eq!((c, sc), (1, 1));
    let (mut c, mut sc) = (3usize, 2usize);
    clamp_cursor(&mut c, &mut sc, 0, 3);
    assert_eq!((c, sc), (0, 0));
    let (mut c, mut sc) = (2usize, 1usize);
    clamp_cursor(&mut c, &mut sc, 5, 3);
    assert_eq!((c, sc), (2, 1));
}

#[test]
fn rectangles_hold_their_cells() {
    let r = Rect { x: 2, y: 3, width: 4, height: 1 };
    assert!(rect_contains(r, 2, 3));
    assert!(rect_contains(r, 5, 3));
    assert!(!rect_contains(r, 6, 3));
    assert!(!rect_contains(r, 2, 4));
    assert!(!rect_contains(Rect::empty(), 0, 0));
}

#[test]
fn value_colors() {
    assert_eq!(value_color(&JsonValue::Bool(true)), Tint::Green);
    assert_eq!(value_color(&JsonValue::Bool(false)), Tint::Red);
    assert_eq!(value_color(&num("1")), Tint::Magenta);
    assert_eq!(value_color(&JsonValue::Null), Tint::Comment);
}

#[test]
fn jump_lands_on_the_target() {
    let root = sample_root();
    let mut st = MillerState::new();
    st.cursor = 2;
    jump_to_path(&mut st, &strs(&["boot", "loader", "timeout"]), &root);
    assert_eq!(st.path, strs(&["boot", "loader"]));
    assert_eq!(st.cursor, 0);
    assert_eq!(current_full_path(&st, &root), strs(&["boot", "loader", "timeout"]));
    assert_eq!(st.focus, Focus::Middle);
    assert_eq!(st.recall(&vec![]), (0, 0));
    assert_eq!(st.recall(&strs(&["boot"])), (0, 0));
    let mut st2 = MillerState::new();
    st2.cursor = 1;
    jump_to_path(&mut st2, &strs(&["networking", "nope", "x"]), &root);
    assert_eq!(st2.path, strs(&["networking"]));
    assert_eq!(st2.cursor, 1);
}

#[test]
fn keys_move_and_drill() {
    let mut v = Viewer::new();
    assert_eq!(v.send(ch('j')), InputAction::Continue);
    assert_eq!(v.state.cursor, 1);
    assert_eq!(v.send(key(Key::Enter)), InputAction::Continue);
    assert_eq!(v.state.path, strs(&["networking"]));
    assert_eq!(v.state.cursor, 0);
    v.send(ch('h'));
    assert!(v.state.path.is_empty());
    assert_eq!(v.state.cursor, 1);
    v.send(key(Key::End));
    assert_eq!(v.state.cursor, 2);
    v.send(ch('l'));
    match &v.mode {
        Mode::Pager { path, lines, .. } => {
            assert_eq!(path, &strs(&["alpha"]));
            assert_eq!(lines, &strs(&["true"]));
        }
        _ => panic!("expected the pager"),
    }
    v.send(key(Key::Esc));
    assert!(matches!(v.mode, Mode::Normal));
    assert_eq!(v.send(ch('q')), InputAction::Quit);
}

#[test]
fn ctrl_c_quits_everywhere() {
    let mut v = Viewer::new();
    v.send(ch('?'));
    assert!(matches!(v.mode, Mode::Help));
    let quit = v.send(InputEvent::Key(KeyPress { code: Key::Char('c'), ctrl: true }));
    assert_eq!(quit, InputAction::Quit);
}

#[test]
fn search_then_jump() {
    let mut v = Viewer::new();
    v.send(ch('/'));
    for c in "HOST".chars() {
        v.send(ch(c));
    }
    match &v.mode {
        Mode::Search { query, results, .. } => {
            assert_eq!(query, "HOST");
            assert_eq!(results, &vec![strs(&["networking", "hostName"])]);
        }
        _ => panic!("expected the search"),
    }
    v.send(key(Key::Backspace));
    v.send(key(Key::Enter));
    assert!(matches!(v.mode, Mode::Normal));
    assert_eq!(v.state.path, strs(&["networking"]));
    assert_eq!(v.status.as_deref(), Some("Jumped to networking.hostName"));
    v.send(ch('j'));
    assert_eq!(v.status, None);
}

#[test]
fn dependency_pane_jumps() {
    let mut v = Viewer::new();
    v.send(key(Key::End));
    v.send(ch('p'));
    assert_eq!(v.state.focus, Focus::Deps);
    v.send(key(Key::Enter));
    assert_eq!(v.state.path, strs(&["networking"]));
    assert_eq!(v.status.as_deref(), Some("Jumped to networking.hostName"));
}

#[test]
fn mouse_selects_and_scrolls() {
    let mut v = Viewer::new();
    v.panes.browse_inner = Rect { x: 0, y: 1, width: 10, height: 5 };
    v.panes.browse_count = 3;
    v.panes.detail_inner = Rect { x: 20, y: 1, width: 10, height: 5 };
    v.send(InputEvent::Mouse(MouseInput { kind: MouseKind::LeftDown, column: 3, row: 3 }));
    assert_eq!(v.state.cursor, 2);
    v.send(InputEvent::Mouse(MouseInput { kind: MouseKind::ScrollUp, column: 3, row: 3 }));
    assert_eq!(v.state.cursor, 1);
    v.send(InputEvent::Mouse(MouseInput { kind: MouseKind::ScrollDown, column: 21, row: 2 }));
    assert_eq!(v.state.detail_scroll, 1);
    v.send(InputEvent::Mouse(MouseInput { kind: MouseKind::LeftDown, column: 21, row: 2 }));
    assert_eq!(v.state.focus, Focus::Detail);
    v.send(key(Key::PageDown));
    assert_eq!(v.state.detail_scroll, 23);
}

#[test]
fn entering_and_leaving_a_branch_comes_back() {
    let mut v = Viewer::new();
    v.state.cursor = 1;
    v.state.scroll = 1;
    v.state.detail_scroll = 4;
    v.status = Some(s("note"));
    assert_eq!(v.send(ch('l')), InputAction::Continue);
    assert_eq!(v.state.path, strs(&["networking"]));
    assert_eq!(v.send(ch('h')), InputAction::Continue);
    assert!(matches!(v.mode, Mode::Normal));
    assert_eq!(v.state.path, Vec::<String>::new());
    assert_eq!((v.state.cursor, v.state.scroll), (1, 1));
    assert_eq!((v.state.detail_scroll, v.state.deps_cursor, v.state.deps_scroll), (0, 0, 0));
    assert_eq!(v.state.focus, Focus::Middle);
    assert_eq!(v.status, None);
}
