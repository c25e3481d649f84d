use vstd::prelude::*;

use crate::browse::{full_path_of, inside, jumped, recalled, value_tint, Focus, Nav, Rect, Tint};
use crate::deps::{table_get, table_model, DepsIndex};
use crate::keys::{sat_sub, Key, KeyPress};
use crate::paths::{join_dots, split_dots, texts};
use crate::tree::{children_at, level, paths_model, search_level, Node};
use crate::values::{full_lines, full_ok};

verus! {

// ---------------------------------------------------------------------------
// Events, panes and modes
// ---------------------------------------------------------------------------

/// What a mouse event did.
#[derive(PartialEq, Eq, Structural, Clone, Copy, Debug)]
pub enum MouseKind {
    LeftDown,
    ScrollDown,
    ScrollUp,
    Other,
}

/// A mouse event at a cell.
#[derive(PartialEq, Eq, Structural, Clone, Copy, Debug)]
pub struct MouseInput {
    pub kind: MouseKind,
    pub column: u16,
    pub row: u16,
}

/// A key press or a mouse event.
#[derive(PartialEq, Eq, Structural, Clone, Copy, Debug)]
pub enum InputEvent {
    Key(KeyPress),
    Mouse(MouseInput),
}

/// What the event loop does next.
#[derive(PartialEq, Eq, Structural, Clone, Copy, Debug)]
pub enum InputAction {
    Continue,
    Quit,
}

/// The inner areas of the panes as last drawn, with the scroll offsets and
/// item counts needed to turn a clicked row into an item.
#[derive(PartialEq, Eq, Structural, Clone, Copy, Debug)]
pub struct PaneAreas {
    pub parent_inner: Rect,
    pub browse_inner: Rect,
    pub children_inner: Rect,
    pub detail_inner: Rect,
    pub deps_inner: Rect,
    pub revs_inner: Rect,
    pub browse_scroll: usize,
    pub deps_scroll: usize,
    pub browse_count: usize,
    pub deps_count: usize,
    pub revs_count: usize,
    pub search_results_inner: Rect,
    pub search_results_scroll: usize,
    pub search_results_count: usize,
    pub search_detail_inner: Rect,
    pub search_deps_inner: Rect,
    pub search_revs_inner: Rect,
    pub search_deps_count: usize,
    pub search_revs_count: usize,
    pub search_deps_scroll: usize,
}

/// Leaves room to add a row or a page to a counter.
pub open spec fn room(x: usize) -> bool {
    x <= usize::MAX - 65536
}

impl PaneAreas {
    /// Every area ends on the screen, and every scroll offset has room.
    pub open spec fn wf(&self) -> bool {
        &&& self.parent_inner.fits()
        &&& self.browse_inner.fits()
        &&& self.children_inner.fits()
        &&& self.detail_inner.fits()
        &&& self.deps_inner.fits()
        &&& self.revs_inner.fits()
        &&& self.search_results_inner.fits()
        &&& self.search_detail_inner.fits()
        &&& self.search_deps_inner.fits()
        &&& self.search_revs_inner.fits()
        &&& room(self.browse_scroll)
        &&& room(self.deps_scroll)
        &&& room(self.search_results_scroll)
        &&& room(self.search_deps_scroll)
    }

    /// Nothing drawn yet.
    pub fn new() -> (p: PaneAreas)
        ensures
            p.wf(),
    {
        PaneAreas {
            parent_inner: Rect::empty(),
            browse_inner: Rect::empty(),
            children_inner: Rect::empty(),
            detail_inner: Rect::empty(),
            deps_inner: Rect::empty(),
            revs_inner: Rect::empty(),
            browse_scroll: 0,
            deps_scroll: 0,
            browse_count: 0,
            deps_count: 0,
            revs_count: 0,
            search_results_inner: Rect::empty(),
            search_results_scroll: 0,
            search_results_count: 0,
            search_detail_inner: Rect::empty(),
            search_deps_inner: Rect::empty(),
            search_revs_inner: Rect::empty(),
            search_deps_count: 0,
            search_revs_count: 0,
            search_deps_scroll: 0,
        }
    }
}

/// What the tree viewer shows.
pub enum Mode {
    Normal,
    Search {
        query: String,
        results: Vec<Vec<String>>,
        cursor: usize,
        scroll: usize,
        right_focus: Focus,
        detail_scroll: usize,
        deps_cursor: usize,
        deps_scroll: usize,
    },
    Help,
    Pager { path: Vec<String>, lines: Vec<String>, scroll: usize, color: Tint },
}

/// The model of a mode.
pub enum ModeV {
    Normal,
    Search {
        query: Seq<char>,
        results: Seq<Seq<Seq<char>>>,
        cursor: usize,
        scroll: usize,
        right_focus: Focus,
        detail_scroll: usize,
        deps_cursor: usize,
        deps_scroll: usize,
    },
    Help,
    Pager { path: Seq<Seq<char>>, lines: Seq<Seq<char>>, scroll: usize, color: Tint },
}

impl Mode {
    pub open spec fn model(&self) -> ModeV {
        match self {
            Mode::Normal => ModeV::Normal,
            Mode::Search { query, results, cursor, scroll, right_focus, detail_scroll, deps_cursor, deps_scroll } => ModeV::Search {
                query: query@,
                results: paths_model(results@),
                cursor: *cursor,
                scroll: *scroll,
                right_focus: *right_focus,
                detail_scroll: *detail_scroll,
                deps_cursor: *deps_cursor,
                deps_scroll: *deps_scroll,
            },
            Mode::Help => ModeV::Help,
            Mode::Pager { path, lines, scroll, color } => ModeV::Pager {
                path: texts(path@),
                lines: texts(lines@),
                scroll: *scroll,
                color: *color,
            },
        }
    }
}

/// The model of an optional message.
pub open spec fn opt_text(o: Option<String>) -> Option<Seq<char>> {
    match o {
        Some(s) => Some(s@),
        None => None,
    }
}

/// The state of the viewer after an event, and what to do next.
pub struct StepV {
    pub mode: ModeV,
    pub nav: Nav,
    pub status: Option<Seq<char>>,
    pub action: InputAction,
}

// ---------------------------------------------------------------------------
// Moves
// ---------------------------------------------------------------------------

/// The lower panes back at their start.
pub open spec fn reset_lower(nav: Nav) -> Nav {
    Nav { detail_scroll: 0, deps_cursor: 0, deps_scroll: 0, ..nav }
}

/// Up one level: the position here is remembered, and the one remembered
/// for the parent restored.
pub open spec fn went_up(nav: Nav) -> Nav {
    let m = nav.memory.insert(nav.path, (nav.cursor, nav.scroll));
    let p = nav.path.drop_last();
    let (c, s) = recalled(m, p);
    reset_lower(Nav { path: p, memory: m, cursor: c, scroll: s, ..nav })
}

/// Into the branch `name`: the position here is remembered, and the one
/// remembered for the branch restored.
pub open spec fn went_down(nav: Nav, name: Seq<char>) -> Nav {
    let m = nav.memory.insert(nav.path, (nav.cursor, nav.scroll));
    let p = nav.path.push(name);
    let (c, s) = recalled(m, p);
    reset_lower(Nav { path: p, memory: m, cursor: c, scroll: s, ..nav })
}

/// The list of paths that `p` reads (or, for `revs`, that read `p`); empty
/// when there is none.
pub open spec fn dep_items(deps: DepsIndex, p: Seq<char>, revs: bool) -> Seq<Seq<char>> {
    let t = if revs {
        table_model(deps.dependents@)
    } else {
        table_model(deps.dependencies@)
    };
    match table_get(t, p) {
        Some(l) => l,
        None => seq![],
    }
}

/// The message shown after jumping to `target`.
pub open spec fn jump_message(target: Seq<Seq<char>>) -> Seq<char> {
    "Jumped to "@ + join_dots(target)
}

/// Jumping to item `idx` of the dependency list of the node under the
/// cursor, when there is such an item.
pub open spec fn dep_jump(nav: Nav, status: Option<Seq<char>>, lv: Seq<(Seq<char>, Node)>, deps: DepsIndex, revs: bool, idx: usize) -> (Nav, Option<Seq<char>>) {
    let items = dep_items(deps, join_dots(full_path_of(nav, lv)), revs);
    if idx < items.len() {
        let target = split_dots(items[idx as int]);
        (jumped(nav, target, lv), Some(jump_message(target)))
    } else {
        (nav, status)
    }
}

/// The dotted path of the selected search result, or the empty path.
pub open spec fn selected_result(results: Seq<Seq<Seq<char>>>, cursor: usize) -> Seq<char> {
    if results.len() > 0 && cursor < results.len() {
        join_dots(results[cursor as int])
    } else {
        seq![]
    }
}

/// `x + n` as a counter, or the last index of `total` items when smaller.
pub open spec fn paged(x: usize, n: int, total: usize) -> usize {
    if x + n <= sat_sub(total as int, 1) {
        (x + n) as usize
    } else {
        sat_sub(total as int, 1) as usize
    }
}

/// A page of `h - k` rows, or none when the terminal is smaller.
pub open spec fn page(h: u16, k: int) -> int {
    sat_sub(h as int, k)
}

pub open spec fn key_is(k: KeyPress, c: char) -> bool {
    k.code == Key::Char(c)
}

pub open spec fn is_down(k: KeyPress) -> bool {
    key_is(k, 'j') || k.code == Key::Down
}

pub open spec fn is_up(k: KeyPress) -> bool {
    key_is(k, 'k') || k.code == Key::Up
}

pub open spec fn is_top(k: KeyPress) -> bool {
    key_is(k, 'g') || k.code == Key::Home
}

pub open spec fn is_bottom(k: KeyPress) -> bool {
    key_is(k, 'G') || k.code == Key::End
}

/// The message for a placeholder opened in the pager.
pub open spec fn phantom_note() -> Seq<char> {
    "! (not serializable or value not used)"@
}

/// The key opens the entry under the cursor of the middle pane.
pub open spec fn is_open(k: KeyPress) -> bool {
    key_is(k, 'l') || k.code == Key::Right || k.code == Key::Enter
}

/// Whether `input` opens the entry under the cursor: one of the opening
/// keys in the browse view with the middle pane focused.
pub open spec fn opens_entry(input: InputEvent, mode: ModeV, nav: Nav) -> bool {
    &&& input matches InputEvent::Key(k)
    &&& is_open(k)
    &&& mode == ModeV::Normal
    &&& nav.focus == Focus::Middle
}

/// The entry under the cursor of the middle pane, where it is a leaf, has a
/// full rendering.
pub open spec fn cursor_full_ok(nav: Nav, lv: Seq<(Seq<char>, Node)>) -> bool {
    match children_at(lv, nav.path) {
        Some(ch) => nav.cursor < ch.len() ==> (ch[nav.cursor as int].1 matches Node::Leaf(v) ==> full_ok(v)),
        None => true,
    }
}

// ---------------------------------------------------------------------------
// What an event does
// ---------------------------------------------------------------------------

/// A click with the left button in the normal view: on an item of the
/// middle pane it selects it; on the parent pane it goes up; on a child in
/// the right pane it enters the branch under the cursor at that child; on
/// the detail pane it focuses it; on an item of a dependency pane it
/// selects it, or jumps to it when it was already selected there, and
/// focuses that pane.
pub open spec fn normal_click(nav: Nav, status: Option<Seq<char>>, lv: Seq<(Seq<char>, Node)>, deps: DepsIndex, panes: PaneAreas, col: u16, row: u16) -> (Nav, Option<Seq<char>>) {
    if inside(panes.browse_inner, col, row) {
        let idx = panes.browse_scroll + (row - panes.browse_inner.y);
        if idx < panes.browse_count {
            (Nav { cursor: idx as usize, focus: Focus::Middle, ..reset_lower(nav) }, status)
        } else {
            (nav, status)
        }
    } else if inside(panes.parent_inner, col, row) && nav.path.len() > 0 {
        (Nav { focus: Focus::Middle, ..went_up(nav) }, status)
    } else if inside(panes.children_inner, col, row) {
        match children_at(lv, nav.path) {
            Some(ch) => if nav.cursor < ch.len() {
                match ch[nav.cursor as int].1 {
                    Node::Branch(gch) => {
                        let line = row - panes.children_inner.y;
                        if line < gch.len() {
                            (
                                reset_lower(
                                    Nav {
                                        path: nav.path.push(ch[nav.cursor as int].0),
                                        memory: nav.memory.insert(nav.path, (nav.cursor, nav.scroll)),
                                        cursor: line as usize,
                                        scroll: 0,
                                        focus: Focus::Middle,
                                        ..nav
                                    },
                                ),
                                status,
                            )
                        } else {
                            (nav, status)
                        }
                    },
                    _ => (nav, status),
                }
            } else {
                (nav, status)
            },
            None => (nav, status),
        }
    } else if inside(panes.detail_inner, col, row) {
        (Nav { focus: Focus::Detail, ..nav }, status)
    } else if inside(panes.deps_inner, col, row) {
        let idx = panes.deps_scroll + (row - panes.deps_inner.y);
        let (n2, s2) = if idx < panes.deps_count {
            if nav.focus == Focus::Deps && nav.deps_cursor == idx {
                dep_jump(nav, status, lv, deps, false, idx as usize)
            } else {
                (Nav { deps_cursor: idx as usize, ..nav }, status)
            }
        } else {
            (nav, status)
        };
        (Nav { focus: Focus::Deps, ..n2 }, s2)
    } else if inside(panes.revs_inner, col, row) {
        let idx = panes.deps_scroll + (row - panes.revs_inner.y);
        let (n2, s2) = if idx < panes.revs_count {
            if nav.focus == Focus::Revs && nav.deps_cursor == idx {
                dep_jump(nav, status, lv, deps, true, idx as usize)
            } else {
                (Nav { deps_cursor: idx as usize, ..nav }, status)
            }
        } else {
            (nav, status)
        };
        (Nav { focus: Focus::Revs, ..n2 }, s2)
    } else {
        (nav, status)
    }
}

/// The search view with new pane fields.
pub open spec fn search_mode(query: Seq<char>, results: Seq<Seq<Seq<char>>>, cursor: usize, scroll: usize, rf: Focus, ds: usize, dc: usize, dsc: usize) -> ModeV {
    ModeV::Search {
        query,
        results,
        cursor,
        scroll,
        right_focus: rf,
        detail_scroll: ds,
        deps_cursor: dc,
        deps_scroll: dsc,
    }
}

/// A click on a dependency pane of the search view: selects the item, or
/// jumps to it (leaving the search) when it was already selected there.
pub open spec fn search_dep_click(
    query: Seq<char>,
    results: Seq<Seq<Seq<char>>>,
    cursor: usize,
    scroll: usize,
    rf: Focus,
    ds: usize,
    dc: usize,
    dsc: usize,
    nav: Nav,
    status: Option<Seq<char>>,
    lv: Seq<(Seq<char>, Node)>,
    deps: DepsIndex,
    idx: int,
    count: usize,
    revs: bool,
) -> StepV {
    let pane = if revs {
        Focus::Revs
    } else {
        Focus::Deps
    };
    let items = dep_items(deps, selected_result(results, cursor), revs);
    if idx < count && rf == pane && dc == idx && idx < items.len() {
        let target = split_dots(items[idx]);
        StepV {
            mode: ModeV::Normal,
            nav: jumped(nav, target, lv),
            status: Some(jump_message(target)),
            action: InputAction::Continue,
        }
    } else {
        let dc2 = if idx < count && !(rf == pane && dc == idx) {
            idx as usize
        } else {
            dc
        };
        StepV {
            mode: search_mode(query, results, cursor, scroll, pane, ds, dc2, dsc),
            nav,
            status,
            action: InputAction::Continue,
        }
    }
}

/// A click with the left button in the search view.
pub open spec fn search_click(
    query: Seq<char>,
    results: Seq<Seq<Seq<char>>>,
    cursor: usize,
    scroll: usize,
    rf: Focus,
    ds: usize,
    dc: usize,
    dsc: usize,
    nav: Nav,
    status: Option<Seq<char>>,
    lv: Seq<(Seq<char>, Node)>,
    deps: DepsIndex,
    panes: PaneAreas,
    col: u16,
    row: u16,
) -> StepV {
    let same = StepV {
        mode: search_mode(query, results, cursor, scroll, rf, ds, dc, dsc),
        nav,
        status,
        action: InputAction::Continue,
    };
    if inside(panes.search_results_inner, col, row) {
        let idx = panes.search_results_scroll + (row - panes.search_results_inner.y);
        let m = if idx < panes.search_results_count {
            search_mode(query, results, idx as usize, scroll, Focus::Middle, 0, 0, 0)
        } else {
            search_mode(query, results, cursor, scroll, Focus::Middle, ds, dc, dsc)
        };
        StepV { mode: m, ..same }
    } else if inside(panes.search_detail_inner, col, row) {
        StepV { mode: search_mode(query, results, cursor, scroll, Focus::Detail, ds, dc, dsc), ..same }
    } else if inside(panes.search_deps_inner, col, row) {
        search_dep_click(
            query,
            results,
            cursor,
            scroll,
            rf,
            ds,
            dc,
            dsc,
            nav,
            status,
            lv,
            deps,
            panes.search_deps_scroll + (row - panes.search_deps_inner.y),
            panes.search_deps_count,
            false,
        )
    } else if inside(panes.search_revs_inner, col, row) {
        search_dep_click(
            query,
            results,
            cursor,
            scroll,
            rf,
            ds,
            dc,
            dsc,
            nav,
            status,
            lv,
            deps,
            panes.search_deps_scroll + (row - panes.search_revs_inner.y),
            panes.search_revs_count,
            true,
        )
    } else {
        same
    }
}

/// The wheel turned down in the normal view.
pub open spec fn normal_wheel_down(nav: Nav, lv: Seq<(Seq<char>, Node)>, deps: DepsIndex, panes: PaneAreas, col: u16, row: u16, middle_count: usize) -> Nav {
    if inside(panes.browse_inner, col, row) {
        if nav.focus == Focus::Middle && middle_count > 0 && nav.cursor + 1 < middle_count {
            reset_lower(Nav { cursor: (nav.cursor + 1) as usize, ..nav })
        } else {
            nav
        }
    } else if inside(panes.detail_inner, col, row) {
        Nav { detail_scroll: (nav.detail_scroll + 1) as usize, ..nav }
    } else if inside(panes.deps_inner, col, row) || inside(panes.revs_inner, col, row) {
        let revs = !inside(panes.deps_inner, col, row);
        let total = dep_items(deps, join_dots(full_path_of(nav, lv)), revs).len();
        if total > 0 && nav.deps_cursor + 1 < total {
            Nav { deps_cursor: (nav.deps_cursor + 1) as usize, ..nav }
        } else {
            nav
        }
    } else {
        nav
    }
}

/// The wheel turned up in the normal view.
pub open spec fn normal_wheel_up(nav: Nav, panes: PaneAreas, col: u16, row: u16) -> Nav {
    if inside(panes.browse_inner, col, row) {
        if nav.cursor > 0 {
            reset_lower(Nav { cursor: (nav.cursor - 1) as usize, ..nav })
        } else {
            nav
        }
    } else if inside(panes.detail_inner, col, row) {
        Nav { detail_scroll: sat_sub(nav.detail_scroll as int, 1) as usize, ..nav }
    } else if inside(panes.deps_inner, col, row) || inside(panes.revs_inner, col, row) {
        Nav { deps_cursor: sat_sub(nav.deps_cursor as int, 1) as usize, ..nav }
    } else {
        nav
    }
}

/// The wheel in the search view: moves the result cursor over the results
/// pane, or the dependency cursor over the focused dependency pane.
pub open spec fn search_wheel(
    query: Seq<char>,
    results: Seq<Seq<Seq<char>>>,
    cursor: usize,
    scroll: usize,
    rf: Focus,
    ds: usize,
    dc: usize,
    dsc: usize,
    panes: PaneAreas,
    col: u16,
    row: u16,
    down: bool,
) -> ModeV {
    if inside(panes.search_results_inner, col, row) {
        let c = if down {
            if results.len() > 0 && cursor + 1 < results.len() {
                (cursor + 1) as usize
            } else {
                cursor
            }
        } else {
            sat_sub(cursor as int, 1) as usize
        };
        search_mode(query, results, c, scroll, rf, ds, dc, dsc)
    } else if (inside(panes.search_deps_inner, col, row) && rf == Focus::Deps) || (inside(
        panes.search_revs_inner,
        col,
        row,
    ) && rf == Focus::Revs) {
        let count = if rf == Focus::Deps {
            panes.search_deps_count
        } else {
            panes.search_revs_count
        };
        let d = if down {
            if count > 0 && dc + 1 < count {
                (dc + 1) as usize
            } else {
                dc
            }
        } else {
            sat_sub(dc as int, 1) as usize
        };
        search_mode(query, results, cursor, scroll, rf, ds, d, dsc)
    } else {
        search_mode(query, results, cursor, scroll, rf, ds, dc, dsc)
    }
}

/// What a mouse event does.
pub open spec fn mouse_step(m: MouseInput, mode: ModeV, nav: Nav, status: Option<Seq<char>>, lv: Seq<(Seq<char>, Node)>, deps: DepsIndex, panes: PaneAreas, middle_count: usize) -> StepV {
    let col = m.column;
    let row = m.row;
    let same = StepV { mode, nav, status, action: InputAction::Continue };
    match m.kind {
        MouseKind::LeftDown => match mode {
            ModeV::Help => StepV { mode: ModeV::Normal, ..same },
            ModeV::Normal => {
                let (n2, s2) = normal_click(nav, status, lv, deps, panes, col, row);
                StepV { nav: n2, status: s2, ..same }
            },
            ModeV::Search { query, results, cursor, scroll, right_focus, detail_scroll, deps_cursor, deps_scroll } =>
                search_click(
                query,
                results,
                cursor,
                scroll,
                right_focus,
                detail_scroll,
                deps_cursor,
                deps_scroll,
                nav,
                status,
                lv,
                deps,
                panes,
                col,
                row,
            ),
            ModeV::Pager { .. } => same,
        },
        MouseKind::ScrollDown => match mode {
            ModeV::Normal | ModeV::Help => StepV {
                nav: normal_wheel_down(nav, lv, deps, panes, col, row, middle_count),
                ..same
            },
            ModeV::Search { query, results, cursor, scroll, right_focus, detail_scroll, deps_cursor, deps_scroll } =>
                StepV {
                mode: search_wheel(
                    query,
                    results,
                    cursor,
                    scroll,
                    right_focus,
                    detail_scroll,
                    deps_cursor,
                    deps_scroll,
                    panes,
                    col,
                    row,
                    true,
                ),
                ..same
            },
            ModeV::Pager { path, lines, scroll, color } => StepV {
                mode: ModeV::Pager {
                    path,
                    lines,
                    scroll: if scroll + 1 < lines.len() {
                        (scroll + 1) as usize
                    } else {
                        scroll
                    },
                    color,
                },
                ..same
            },
        },
        MouseKind::ScrollUp => match mode {
            ModeV::Normal | ModeV::Help => StepV { nav: normal_wheel_up(nav, panes, col, row), ..same },
            ModeV::Search { query, results, cursor, scroll, right_focus, detail_scroll, deps_cursor, deps_scroll } =>
                StepV {
                mode: search_wheel(
                    query,
                    results,
                    cursor,
                    scroll,
                    right_focus,
                    detail_scroll,
                    deps_cursor,
                    deps_scroll,
                    panes,
                    col,
                    row,
                    false,
                ),
                ..same
            },
            ModeV::Pager { path, lines, scroll, color } => StepV {
                mode: ModeV::Pager { path, lines, scroll: sat_sub(scroll as int, 1) as usize, color },
                ..same
            },
        },
        MouseKind::Other => same,
    }
}

/// A key in the fullscreen pager.
pub open spec fn pager_key(k: KeyPress, path: Seq<Seq<char>>, lines: Seq<Seq<char>>, scroll: usize, color: Tint, h: u16) -> ModeV {
    let last = sat_sub(lines.len() as int, 1);
    let at = |s: usize| ModeV::Pager { path, lines, scroll: s, color };
    if is_down(k) {
        at(
            if scroll + 1 < lines.len() {
                (scroll + 1) as usize
            } else {
                scroll
            },
        )
    } else if is_up(k) {
        at(sat_sub(scroll as int, 1) as usize)
    } else if is_top(k) {
        at(0)
    } else if is_bottom(k) {
        at(last as usize)
    } else if k.code == Key::PageDown {
        at(paged(scroll, page(h, 4), lines.len() as usize))
    } else if k.code == Key::PageUp {
        at(sat_sub(scroll as int, page(h, 4)) as usize)
    } else if k.code == Key::Esc || key_is(k, 'q') || key_is(k, 'h') || k.code == Key::Left || k.code == Key::Backspace {
        ModeV::Normal
    } else {
        at(scroll)
    }
}

/// Opening the entry under the cursor: a branch is entered, a leaf or a
/// placeholder opens in the pager.
pub open spec fn open_entry(nav: Nav, lv: Seq<(Seq<char>, Node)>) -> (ModeV, Nav) {
    match children_at(lv, nav.path) {
        Some(ch) => if nav.cursor < ch.len() {
            let name = ch[nav.cursor as int].0;
            match ch[nav.cursor as int].1 {
                Node::Branch(_) => (ModeV::Normal, went_down(nav, name)),
                Node::Leaf(v) => (
                    ModeV::Pager { path: nav.path.push(name), lines: full_lines(v), scroll: 0, color: value_tint(v) },
                    nav,
                ),
                Node::Phantom => (
                    ModeV::Pager { path: nav.path.push(name), lines: seq![phantom_note()], scroll: 0, color: Tint::Yellow },
                    nav,
                ),
            }
        } else {
            (ModeV::Normal, nav)
        },
        None => (ModeV::Normal, nav),
    }
}

/// A new, empty search.
pub open spec fn fresh_search() -> ModeV {
    search_mode(seq![], seq![], 0, 0, Focus::Middle, 0, 0, 0)
}

/// A key in the normal view with the middle pane focused.
pub open spec fn middle_key(k: KeyPress, nav: Nav, lv: Seq<(Seq<char>, Node)>, h: u16, mc: usize) -> (ModeV, Nav) {
    let p = page(h, 6);
    let last = sat_sub(mc as int, 1);
    if is_down(k) {
        (
            ModeV::Normal,
            if mc > 0 && nav.cursor + 1 < mc {
                reset_lower(Nav { cursor: (nav.cursor + 1) as usize, ..nav })
            } else {
                nav
            },
        )
    } else if is_up(k) {
        (
            ModeV::Normal,
            if nav.cursor > 0 {
                reset_lower(Nav { cursor: (nav.cursor - 1) as usize, ..nav })
            } else {
                nav
            },
        )
    } else if is_top(k) {
        (ModeV::Normal, reset_lower(Nav { cursor: 0, ..nav }))
    } else if is_bottom(k) {
        (ModeV::Normal, reset_lower(Nav { cursor: last as usize, ..nav }))
    } else if k.code == Key::PageDown {
        (ModeV::Normal, reset_lower(Nav { cursor: paged(nav.cursor, p, mc), ..nav }))
    } else if k.code == Key::PageUp {
        (ModeV::Normal, reset_lower(Nav { cursor: sat_sub(nav.cursor as int, p) as usize, ..nav }))
    } else if key_is(k, 'l') || k.code == Key::Right || k.code == Key::Enter {
        open_entry(nav, lv)
    } else if key_is(k, 'h') || k.code == Key::Left || k.code == Key::Esc {
        (
            ModeV::Normal,
            if nav.path.len() > 0 {
                went_up(nav)
            } else {
                nav
            },
        )
    } else if key_is(k, 'd') {
        (ModeV::Normal, Nav { focus: Focus::Detail, ..nav })
    } else if key_is(k, 'p') {
        (ModeV::Normal, Nav { focus: Focus::Deps, deps_cursor: 0, deps_scroll: 0, ..nav })
    } else if key_is(k, 'n') {
        (ModeV::Normal, Nav { focus: Focus::Revs, deps_cursor: 0, deps_scroll: 0, ..nav })
    } else if key_is(k, 'J') {
        (ModeV::Normal, Nav { detail_scroll: (nav.detail_scroll + 1) as usize, ..nav })
    } else if key_is(k, 'K') {
        (ModeV::Normal, Nav { detail_scroll: sat_sub(nav.detail_scroll as int, 1) as usize, ..nav })
    } else if key_is(k, '/') {
        (fresh_search(), nav)
    } else if key_is(k, '?') {
        (ModeV::Help, nav)
    } else {
        (ModeV::Normal, nav)
    }
}

/// A key in the normal view with the detail pane focused.
pub open spec fn detail_key(k: KeyPress, nav: Nav, h: u16) -> Nav {
    let p = page(h, 8);
    if is_down(k) {
        Nav { detail_scroll: (nav.detail_scroll + 1) as usize, ..nav }
    } else if is_up(k) {
        Nav { detail_scroll: sat_sub(nav.detail_scroll as int, 1) as usize, ..nav }
    } else if k.code == Key::PageDown {
        Nav { detail_scroll: (nav.detail_scroll + p) as usize, ..nav }
    } else if k.code == Key::PageUp {
        Nav { detail_scroll: sat_sub(nav.detail_scroll as int, p) as usize, ..nav }
    } else if k.code == Key::Esc || key_is(k, 'h') || k.code == Key::Left || key_is(k, 'b') {
        Nav { focus: Focus::Middle, ..nav }
    } else if key_is(k, 'p') {
        Nav { focus: Focus::Deps, deps_cursor: 0, deps_scroll: 0, ..nav }
    } else if key_is(k, 'n') {
        Nav { focus: Focus::Revs, deps_cursor: 0, deps_scroll: 0, ..nav }
    } else {
        nav
    }
}

/// A key in the normal view with a dependency pane focused (`revs` for the
/// pane of dependents).
pub open spec fn dep_pane_key(k: KeyPress, nav: Nav, status: Option<Seq<char>>, lv: Seq<(Seq<char>, Node)>, deps: DepsIndex, h: u16, revs: bool) -> (Nav, Option<Seq<char>>) {
    let p = page(h, 8);
    let total = dep_items(deps, join_dots(full_path_of(nav, lv)), revs).len() as usize;
    if is_down(k) {
        (
            if total > 0 && nav.deps_cursor + 1 < total {
                Nav { deps_cursor: (nav.deps_cursor + 1) as usize, ..nav }
            } else {
                nav
            },
            status,
        )
    } else if is_up(k) {
        (Nav { deps_cursor: sat_sub(nav.deps_cursor as int, 1) as usize, ..nav }, status)
    } else if k.code == Key::PageDown {
        (Nav { deps_cursor: paged(nav.deps_cursor, p, total), ..nav }, status)
    } else if k.code == Key::PageUp {
        (Nav { deps_cursor: sat_sub(nav.deps_cursor as int, p) as usize, ..nav }, status)
    } else if k.code == Key::Enter {
        dep_jump(nav, status, lv, deps, revs, nav.deps_cursor)
    } else if k.code == Key::Esc || key_is(k, 'h') || k.code == Key::Left || key_is(k, 'b') {
        (Nav { focus: Focus::Middle, ..nav }, status)
    } else if key_is(k, 'd') {
        (Nav { focus: Focus::Detail, ..nav }, status)
    } else if !revs && key_is(k, 'n') {
        (Nav { focus: Focus::Revs, deps_cursor: 0, deps_scroll: 0, ..nav }, status)
    } else if revs && key_is(k, 'p') {
        (Nav { focus: Focus::Deps, deps_cursor: 0, deps_scroll: 0, ..nav }, status)
    } else {
        (nav, status)
    }
}

/// A key in the normal view: the status message is cleared first; `q`
/// quits; any other key goes to the focused pane.
pub open spec fn normal_key(k: KeyPress, nav: Nav, lv: Seq<(Seq<char>, Node)>, deps: DepsIndex, h: u16, mc: usize) -> StepV {
    let cleared = StepV { mode: ModeV::Normal, nav, status: None, action: InputAction::Continue };
    if key_is(k, 'q') {
        StepV { action: InputAction::Quit, ..cleared }
    } else {
        match nav.focus {
            Focus::Middle => {
                let (m, n) = middle_key(k, nav, lv, h, mc);
                StepV { mode: m, nav: n, ..cleared }
            },
            Focus::Detail => StepV { nav: detail_key(k, nav, h), ..cleared },
            Focus::Deps => {
                let (n, st) = dep_pane_key(k, nav, None, lv, deps, h, false);
                StepV { nav: n, status: st, ..cleared }
            },
            Focus::Revs => {
                let (n, st) = dep_pane_key(k, nav, None, lv, deps, h, true);
                StepV { nav: n, status: st, ..cleared }
            },
        }
    }
}

/// The results of a search for `query` from the top of the tree.
pub open spec fn search_results(lv: Seq<(Seq<char>, Node)>, query: Seq<char>) -> Seq<Seq<Seq<char>>> {
    if query.len() == 0 {
        seq![]
    } else {
        search_level(lv, query, seq![])
    }
}

/// A key in the search view with the results focused: typing edits the
/// query and searches again; the arrows and pages move through the
/// results; Enter jumps to the selected one; Esc leaves.
pub open spec fn search_results_key(
    k: KeyPress,
    query: Seq<char>,
    results: Seq<Seq<Seq<char>>>,
    cursor: usize,
    scroll: usize,
    ds: usize,
    dc: usize,
    dsc: usize,
    nav: Nav,
    status: Option<Seq<char>>,
    lv: Seq<(Seq<char>, Node)>,
    h: u16,
) -> StepV {
    let p = page(h, 8);
    let stay = |m: ModeV| StepV { mode: m, nav, status, action: InputAction::Continue };
    let same = search_mode(query, results, cursor, scroll, Focus::Middle, ds, dc, dsc);
    if k.code == Key::Esc {
        stay(ModeV::Normal)
    } else if k.code == Key::Enter {
        if results.len() > 0 && cursor < results.len() {
            let target = results[cursor as int];
            StepV {
                mode: ModeV::Normal,
                nav: jumped(nav, target, lv),
                status: Some(jump_message(target)),
                action: InputAction::Continue,
            }
        } else {
            stay(same)
        }
    } else if k.code == Key::Tab {
        stay(search_mode(query, results, cursor, scroll, Focus::Detail, ds, dc, dsc))
    } else if k.code == Key::Down {
        stay(
            if results.len() > 0 && cursor + 1 < results.len() {
                search_mode(query, results, (cursor + 1) as usize, scroll, Focus::Middle, 0, 0, 0)
            } else {
                same
            },
        )
    } else if k.code == Key::Up {
        stay(
            if cursor > 0 {
                search_mode(query, results, (cursor - 1) as usize, scroll, Focus::Middle, 0, 0, 0)
            } else {
                same
            },
        )
    } else if k.code == Key::PageDown {
        stay(search_mode(query, results, paged(cursor, p, results.len() as usize), scroll, Focus::Middle, 0, 0, 0))
    } else if k.code == Key::PageUp {
        stay(search_mode(query, results, sat_sub(cursor as int, p) as usize, scroll, Focus::Middle, 0, 0, 0))
    } else if k.code == Key::Backspace {
        let q = if query.len() > 0 {
            query.drop_last()
        } else {
            query
        };
        stay(search_mode(q, search_results(lv, q), 0, 0, Focus::Middle, 0, 0, 0))
    } else {
        match k.code {
            Key::Char(c) => {
                let q = query.push(c);
                stay(search_mode(q, search_results(lv, q), 0, 0, Focus::Middle, 0, 0, 0))
            },
            _ => stay(same),
        }
    }
}

/// A key in the search view with the detail pane focused.
pub open spec fn search_detail_key(k: KeyPress, query: Seq<char>, results: Seq<Seq<Seq<char>>>, cursor: usize, scroll: usize, ds: usize, dc: usize, dsc: usize, h: u16) -> ModeV {
    let p = page(h, 8);
    if is_down(k) {
        search_mode(query, results, cursor, scroll, Focus::Detail, (ds + 1) as usize, dc, dsc)
    } else if is_up(k) {
        search_mode(query, results, cursor, scroll, Focus::Detail, sat_sub(ds as int, 1) as usize, dc, dsc)
    } else if k.code == Key::PageDown {
        search_mode(query, results, cursor, scroll, Focus::Detail, (ds + p) as usize, dc, dsc)
    } else if k.code == Key::PageUp {
        search_mode(query, results, cursor, scroll, Focus::Detail, sat_sub(ds as int, p) as usize, dc, dsc)
    } else if key_is(k, 'p') {
        search_mode(query, results, cursor, scroll, Focus::Deps, ds, 0, 0)
    } else if key_is(k, 'n') {
        search_mode(query, results, cursor, scroll, Focus::Revs, ds, 0, 0)
    } else if k.code == Key::Esc || key_is(k, 'h') || k.code == Key::Tab {
        search_mode(query, results, cursor, scroll, Focus::Middle, ds, dc, dsc)
    } else {
        search_mode(query, results, cursor, scroll, Focus::Detail, ds, dc, dsc)
    }
}

/// A key in the search view with a dependency pane focused.
pub open spec fn search_dep_key(
    k: KeyPress,
    query: Seq<char>,
    results: Seq<Seq<Seq<char>>>,
    cursor: usize,
    scroll: usize,
    ds: usize,
    dc: usize,
    dsc: usize,
    nav: Nav,
    status: Option<Seq<char>>,
    lv: Seq<(Seq<char>, Node)>,
    deps: DepsIndex,
    h: u16,
    revs: bool,
) -> StepV {
    let p = page(h, 8);
    let pane = if revs {
        Focus::Revs
    } else {
        Focus::Deps
    };
    let items = dep_items(deps, selected_result(results, cursor), revs);
    let total = items.len() as usize;
    let stay = |m: ModeV| StepV { mode: m, nav, status, action: InputAction::Continue };
    let with_dc = |d: usize| search_mode(query, results, cursor, scroll, pane, ds, d, dsc);
    if is_down(k) {
        stay(
            with_dc(
                if total > 0 && dc + 1 < total {
                    (dc + 1) as usize
                } else {
                    dc
                },
            ),
        )
    } else if is_up(k) {
        stay(with_dc(sat_sub(dc as int, 1) as usize))
    } else if k.code == Key::PageDown {
        stay(with_dc(paged(dc, p, total)))
    } else if k.code == Key::PageUp {
        stay(with_dc(sat_sub(dc as int, p) as usize))
    } else if k.code == Key::Enter {
        if dc < total {
            let target = split_dots(items[dc as int]);
            StepV {
                mode: ModeV::Normal,
                nav: jumped(nav, target, lv),
                status: Some(jump_message(target)),
                action: InputAction::Continue,
            }
        } else {
            stay(with_dc(dc))
        }
    } else if key_is(k, 'd') {
        stay(search_mode(query, results, cursor, scroll, Focus::Detail, ds, dc, dsc))
    } else if !revs && key_is(k, 'n') {
        stay(search_mode(query, results, cursor, scroll, Focus::Revs, ds, 0, 0))
    } else if revs && key_is(k, 'p') {
        stay(search_mode(query, results, cursor, scroll, Focus::Deps, ds, 0, 0))
    } else if k.code == Key::Esc || key_is(k, 'h') || k.code == Key::Tab {
        stay(search_mode(query, results, cursor, scroll, Focus::Middle, ds, dc, dsc))
    } else {
        stay(with_dc(dc))
    }
}

/// What a key press does.
pub open spec fn key_step(k: KeyPress, mode: ModeV, nav: Nav, status: Option<Seq<char>>, lv: Seq<(Seq<char>, Node)>, deps: DepsIndex, h: u16, mc: usize) -> StepV {
    let same = StepV { mode, nav, status, action: InputAction::Continue };
    if key_is(k, 'c') && k.ctrl {
        StepV { action: InputAction::Quit, ..same }
    } else {
        match mode {
            ModeV::Help => if key_is(k, '?') || k.code == Key::Esc || key_is(k, 'q') {
                StepV { mode: ModeV::Normal, ..same }
            } else {
                same
            },
            ModeV::Pager { path, lines, scroll, color } => StepV { mode: pager_key(k, path, lines, scroll, color, h), ..same },
            ModeV::Normal => normal_key(k, nav, lv, deps, h, mc),
            ModeV::Search { query, results, cursor, scroll, right_focus, detail_scroll, deps_cursor, deps_scroll } =>
                match right_focus {
                Focus::Middle => search_results_key(
                    k,
                    query,
                    results,
                    cursor,
                    scroll,
                    detail_scroll,
                    deps_cursor,
                    deps_scroll,
                    nav,
                    status,
                    lv,
                    h,
                ),
                Focus::Detail => StepV {
                    mode: search_detail_key(k, query, results, cursor, scroll, detail_scroll, deps_cursor, deps_scroll, h),
                    ..same
                },
                Focus::Deps => search_dep_key(
                    k,
                    query,
                    results,
                    cursor,
                    scroll,
                    detail_scroll,
                    deps_cursor,
                    deps_scroll,
                    nav,
                    status,
                    lv,
                    deps,
                    h,
                    false,
                ),
                Focus::Revs => search_dep_key(
                    k,
                    query,
                    results,
                    cursor,
                    scroll,
                    detail_scroll,
                    deps_cursor,
                    deps_scroll,
                    nav,
                    status,
                    lv,
                    deps,
                    h,
                    true,
                ),
            },
        }
    }
}

/// What an event does.
pub open spec fn input_step(ev: InputEvent, mode: ModeV, nav: Nav, status: Option<Seq<char>>, lv: Seq<(Seq<char>, Node)>, deps: DepsIndex, panes: PaneAreas, h: u16, mc: usize) -> StepV {
    match ev {
        InputEvent::Mouse(m) => mouse_step(m, mode, nav, status, lv, deps, panes, mc),
        InputEvent::Key(k) => key_step(k, mode, nav, status, lv, deps, h, mc),
    }
}

/// Entering a branch with `l` and leaving it with `h` brings the browser
/// back to where it was: the same path, cursor and scroll offset, with the
/// lower panes reset and the status cleared, on any tree.
pub proof fn lemma_enter_and_leave(
    nav: Nav,
    status: Option<Seq<char>>,
    lv: Seq<(Seq<char>, Node)>,
    deps: DepsIndex,
    panes: PaneAreas,
    h1: u16,
    mc1: usize,
    h2: u16,
    mc2: usize,
)
    requires
        nav.focus == Focus::Middle,
        children_at(lv, nav.path) is Some,
        nav.cursor < children_at(lv, nav.path).unwrap().len(),
        children_at(lv, nav.path).unwrap()[nav.cursor as int].1 is Branch,
    ensures
        ({
            let enter = InputEvent::Key(KeyPress { code: Key::Char('l'), ctrl: false });
            let leave = InputEvent::Key(KeyPress { code: Key::Char('h'), ctrl: false });
            let s1 = input_step(enter, ModeV::Normal, nav, status, lv, deps, panes, h1, mc1);
            let s2 = input_step(leave, s1.mode, s1.nav, s1.status, lv, deps, panes, h2, mc2);
            &&& s1.action == InputAction::Continue
            &&& s2.action == InputAction::Continue
            &&& s2.mode == ModeV::Normal
            &&& s2.nav.path == nav.path
            &&& s2.nav.cursor == nav.cursor
            &&& s2.nav.scroll == nav.scroll
            &&& s2.nav.focus == Focus::Middle
            &&& s2.nav.detail_scroll == 0
            &&& s2.nav.deps_cursor == 0
            &&& s2.nav.deps_scroll == 0
            &&& s2.status is None
        }),
{
    let ch = children_at(lv, nav.path).unwrap();
    let name = ch[nav.cursor as int].0;
    let down = went_down(nav, name);
    assert(down.path.drop_last() =~= nav.path);
    assert(down.path != nav.path);
    let up = went_up(down);
    assert(up.memory[nav.path] == (nav.cursor, nav.scroll));
}

} // verus!
