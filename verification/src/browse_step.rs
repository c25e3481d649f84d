use vstd::prelude::*;

use crate::browse::{current_full_path, jump_to_path, rect_contains, value_color, Focus, MillerState, Nav, Tint};
use crate::browse_input::{
    cursor_full_ok, dep_items, dep_jump, input_step, is_open, jump_message, middle_key, normal_click, normal_key,
    normal_wheel_down, normal_wheel_up, open_entry, opt_text, page, paged, pager_key, phantom_note, reset_lower,
    room, search_click, search_dep_click, search_dep_key, search_detail_key, search_mode, search_results_key,
    search_wheel, selected_result, went_down, went_up, detail_key, dep_pane_key, opens_entry, InputAction,
    InputEvent, Mode, ModeV, MouseKind, PaneAreas, StepV,
};
use crate::deps::DepsIndex;
use crate::keys::{is_char, sat_sub, Key, KeyPress};
use crate::paths::{copy_strings, join_path, split_path, texts};
use crate::text::{chars_of, copy_string, push_char, push_string, string_of};
use crate::tree::{
    children_at, get_children_at_path, lemma_branch_model, level, paths_model, search_tree, ConfigNode, Node,
};
use crate::values::{format_value_full, full_lines};

verus! {

// ---------------------------------------------------------------------------
// Small steps
// ---------------------------------------------------------------------------

fn reset_lower_panes(state: &mut MillerState)
    ensures
        final(state).nav() == reset_lower(old(state).nav()),
        final(state).path_memory == old(state).path_memory,
{
    state.detail_scroll = 0;
    state.deps_cursor = 0;
    state.deps_scroll = 0;
}

fn go_up(state: &mut MillerState)
    requires
        old(state).wf(),
        old(state).path@.len() > 0,
    ensures
        final(state).wf(),
        final(state).nav() == went_up(old(state).nav()),
{
    let here = copy_strings(&state.path);
    let pos = (state.cursor, state.scroll);
    state.remember(&here, pos);
    let ghost before = texts(state.path@);
    state.path.pop();
    proof {
        assert(texts(state.path@) =~= before.drop_last());
    }
    let (c, s) = state.recall(&state.path);
    state.cursor = c;
    state.scroll = s;
    reset_lower_panes(state);
}

fn go_down(state: &mut MillerState, name: &String)
    requires
        old(state).wf(),
    ensures
        final(state).wf(),
        final(state).nav() == went_down(old(state).nav(), name@),
{
    let here = copy_strings(&state.path);
    let pos = (state.cursor, state.scroll);
    state.remember(&here, pos);
    let ghost before = texts(state.path@);
    state.path.push(copy_string(name));
    proof {
        assert(texts(state.path@) =~= before.push(name@));
    }
    let (c, s) = state.recall(&state.path);
    state.cursor = c;
    state.scroll = s;
    reset_lower_panes(state);
}

/// The dependency list of the dotted path `p` (`revs` for its dependents).
fn dep_list<'a>(deps: &'a DepsIndex, p: &String, revs: bool) -> (r: Option<&'a Vec<String>>)
    ensures
        match r {
            Some(l) => dep_items(*deps, p@, revs) == texts(l@),
            None => dep_items(*deps, p@, revs) == Seq::<Seq<char>>::empty(),
        },
{
    if revs {
        deps.dependents_of(p)
    } else {
        deps.dependencies_of(p)
    }
}

fn dep_count(deps: &DepsIndex, p: &String, revs: bool) -> (n: usize)
    ensures
        n == dep_items(*deps, p@, revs).len(),
{
    match dep_list(deps, p, revs) {
        Some(l) => l.len(),
        None => 0,
    }
}

/// The message shown after jumping to `target`.
pub fn jump_note(target: &Vec<String>) -> (s: String)
    ensures
        s@ == jump_message(texts(target@)),
{
    let mut s = String::new();
    s.append("Jumped to ");
    let j = join_path(target);
    push_string(&mut s, &j);
    s
}

fn try_dep_jump(
    state: &mut MillerState,
    status: &mut Option<String>,
    root: &Vec<(String, ConfigNode)>,
    deps: &DepsIndex,
    revs: bool,
    idx: usize,
)
    requires
        old(state).wf(),
    ensures
        final(state).wf(),
        (final(state).nav(), opt_text(*final(status))) == dep_jump(
            old(state).nav(),
            opt_text(*old(status)),
            level(root@),
            *deps,
            revs,
            idx,
        ),
{
    let full = current_full_path(state, root);
    let p = join_path(&full);
    match dep_list(deps, &p, revs) {
        Some(items) => {
            if idx < items.len() {
                let target = split_path(items[idx].as_str());
                let msg = jump_note(&target);
                jump_to_path(state, &target, root);
                *status = Some(msg);
            }
        },
        None => {},
    }
}

fn page_of(h: u16, k: u16) -> (p: usize)
    ensures
        p == page(h, k as int),
        p <= 65535,
{
    if h >= k {
        (h - k) as usize
    } else {
        0
    }
}

fn paged_exec(x: usize, n: usize, total: usize) -> (r: usize)
    requires
        room(x),
        n <= 65535,
    ensures
        r == paged(x, n as int, total),
{
    let last = if total > 0 {
        total - 1
    } else {
        0
    };
    if x + n <= last {
        x + n
    } else {
        last
    }
}

fn sat_dec(x: usize, n: usize) -> (r: usize)
    ensures
        r == sat_sub(x as int, n as int),
{
    if x >= n {
        x - n
    } else {
        0
    }
}

// ---------------------------------------------------------------------------
// The mouse
// ---------------------------------------------------------------------------

fn click_normal(
    state: &mut MillerState,
    status: &mut Option<String>,
    root: &Vec<(String, ConfigNode)>,
    deps: &DepsIndex,
    panes: &PaneAreas,
    col: u16,
    row: u16,
)
    requires
        old(state).wf(),
        panes.wf(),
    ensures
        final(state).wf(),
        (final(state).nav(), opt_text(*final(status))) == normal_click(
            old(state).nav(),
            opt_text(*old(status)),
            level(root@),
            *deps,
            *panes,
            col,
            row,
        ),
{
    if rect_contains(panes.browse_inner, col, row) {
        let line = (row - panes.browse_inner.y) as usize;
        let idx = panes.browse_scroll + line;
        if idx < panes.browse_count {
            state.cursor = idx;
            reset_lower_panes(state);
            state.focus = Focus::Middle;
        }
    } else if rect_contains(panes.parent_inner, col, row) && state.path.len() > 0 {
        go_up(state);
        state.focus = Focus::Middle;
    } else if rect_contains(panes.children_inner, col, row) {
        match get_children_at_path(root, &state.path) {
            Some(children) => {
                if state.cursor < children.len() {
                    proof {
                        assert(level(children@)[state.cursor as int] == (
                            children@[state.cursor as int].0@,
                            children@[state.cursor as int].1.model(),
                        ));
                    }
                    match &children[state.cursor].1 {
                        ConfigNode::Branch(ch) => {
                            proof {
                                lemma_branch_model(ch);
                            }
                            let line = (row - panes.children_inner.y) as usize;
                            if line < ch.len() {
                                let name = copy_string(&children[state.cursor].0);
                                let here = copy_strings(&state.path);
                                let pos = (state.cursor, state.scroll);
                                state.remember(&here, pos);
                                let ghost before = texts(state.path@);
                                state.path.push(name);
                                proof {
                                    assert(texts(state.path@) =~= before.push(children@[old(state).cursor as int].0@));
                                }
                                state.cursor = line;
                                state.scroll = 0;
                                reset_lower_panes(state);
                                state.focus = Focus::Middle;
                            }
                        },
                        _ => {},
                    }
                }
            },
            None => {},
        }
    } else if rect_contains(panes.detail_inner, col, row) {
        state.focus = Focus::Detail;
    } else if rect_contains(panes.deps_inner, col, row) {
        let line = (row - panes.deps_inner.y) as usize;
        let idx = panes.deps_scroll + line;
        if idx < panes.deps_count {
            if state.focus == Focus::Deps && state.deps_cursor == idx {
                try_dep_jump(state, status, root, deps, false, idx);
            } else {
                state.deps_cursor = idx;
            }
        }
        state.focus = Focus::Deps;
    } else if rect_contains(panes.revs_inner, col, row) {
        let line = (row - panes.revs_inner.y) as usize;
        let idx = panes.deps_scroll + line;
        if idx < panes.revs_count {
            if state.focus == Focus::Revs && state.deps_cursor == idx {
                try_dep_jump(state, status, root, deps, true, idx);
            } else {
                state.deps_cursor = idx;
            }
        }
        state.focus = Focus::Revs;
    }
}

fn wheel_normal(
    state: &mut MillerState,
    root: &Vec<(String, ConfigNode)>,
    deps: &DepsIndex,
    panes: &PaneAreas,
    col: u16,
    row: u16,
    middle_count: usize,
    down: bool,
)
    requires
        old(state).wf(),
        panes.wf(),
        room(old(state).cursor),
        room(old(state).detail_scroll),
        room(old(state).deps_cursor),
    ensures
        final(state).wf(),
        final(state).nav() == if down {
            normal_wheel_down(old(state).nav(), level(root@), *deps, *panes, col, row, middle_count)
        } else {
            normal_wheel_up(old(state).nav(), *panes, col, row)
        },
{
    if rect_contains(panes.browse_inner, col, row) {
        if down {
            if state.focus == Focus::Middle && middle_count > 0 && state.cursor + 1 < middle_count {
                state.cursor = state.cursor + 1;
                reset_lower_panes(state);
            }
        } else if state.cursor > 0 {
            state.cursor = state.cursor - 1;
            reset_lower_panes(state);
        }
    } else if rect_contains(panes.detail_inner, col, row) {
        if down {
            state.detail_scroll = state.detail_scroll + 1;
        } else {
            state.detail_scroll = sat_dec(state.detail_scroll, 1);
        }
    } else if rect_contains(panes.deps_inner, col, row) || rect_contains(panes.revs_inner, col, row) {
        if down {
            let revs = !rect_contains(panes.deps_inner, col, row);
            let full = current_full_path(state, root);
            let p = join_path(&full);
            let total = dep_count(deps, &p, revs);
            if total > 0 && state.deps_cursor + 1 < total {
                state.deps_cursor = state.deps_cursor + 1;
            }
        } else {
            state.deps_cursor = sat_dec(state.deps_cursor, 1);
        }
    }
}

// ---------------------------------------------------------------------------
// The search view
// ---------------------------------------------------------------------------

/// The search view with the given fields.
fn search_of(query: String, results: Vec<Vec<String>>, cursor: usize, scroll: usize, rf: Focus, ds: usize, dc: usize, dsc: usize) -> (m: Mode)
    ensures
        m.model() == search_mode(query@, paths_model(results@), cursor, scroll, rf, ds, dc, dsc),
{
    Mode::Search {
        query,
        results,
        cursor,
        scroll,
        right_focus: rf,
        detail_scroll: ds,
        deps_cursor: dc,
        deps_scroll: dsc,
    }
}

/// The dotted path of the selected search result, or the empty path.
fn selected_path(results: &Vec<Vec<String>>, cursor: usize) -> (s: String)
    ensures
        s@ == selected_result(paths_model(results@), cursor),
{
    if results.len() > 0 && cursor < results.len() {
        join_path(&results[cursor])
    } else {
        String::new()
    }
}

fn search_dep_click_exec(
    query: String,
    results: Vec<Vec<String>>,
    cursor: usize,
    scroll: usize,
    rf: Focus,
    ds: usize,
    dc: usize,
    dsc: usize,
    state: &mut MillerState,
    status: &mut Option<String>,
    root: &Vec<(String, ConfigNode)>,
    deps: &DepsIndex,
    idx: usize,
    count: usize,
    revs: bool,
) -> (m: Mode)
    requires
        old(state).wf(),
    ensures
        final(state).wf(),
        (StepV {
            mode: m.model(),
            nav: final(state).nav(),
            status: opt_text(*final(status)),
            action: InputAction::Continue,
        }) == search_dep_click(
            query@,
            paths_model(results@),
            cursor,
            scroll,
            rf,
            ds,
            dc,
            dsc,
            old(state).nav(),
            opt_text(*old(status)),
            level(root@),
            *deps,
            idx as int,
            count,
            revs,
        ),
{
    let pane = if revs {
        Focus::Revs
    } else {
        Focus::Deps
    };
    let p = selected_path(&results, cursor);
    let mut dc2 = dc;
    if idx < count {
        if rf == pane && dc == idx {
            match dep_list(deps, &p, revs) {
                Some(items) => {
                    if idx < items.len() {
                        let target = split_path(items[idx].as_str());
                        let msg = jump_note(&target);
                        jump_to_path(state, &target, root);
                        *status = Some(msg);
                        return Mode::Normal;
                    }
                },
                None => {},
            }
        } else {
            dc2 = idx;
        }
    }
    search_of(query, results, cursor, scroll, pane, ds, dc2, dsc)
}

fn search_click_exec(
    query: String,
    results: Vec<Vec<String>>,
    cursor: usize,
    scroll: usize,
    rf: Focus,
    ds: usize,
    dc: usize,
    dsc: usize,
    state: &mut MillerState,
    status: &mut Option<String>,
    root: &Vec<(String, ConfigNode)>,
    deps: &DepsIndex,
    panes: &PaneAreas,
    col: u16,
    row: u16,
) -> (m: Mode)
    requires
        old(state).wf(),
        panes.wf(),
    ensures
        final(state).wf(),
        (StepV {
            mode: m.model(),
            nav: final(state).nav(),
            status: opt_text(*final(status)),
            action: InputAction::Continue,
        }) == search_click(
            query@,
            paths_model(results@),
            cursor,
            scroll,
            rf,
            ds,
            dc,
            dsc,
            old(state).nav(),
            opt_text(*old(status)),
            level(root@),
            *deps,
            *panes,
            col,
            row,
        ),
{
    if rect_contains(panes.search_results_inner, col, row) {
        let line = (row - panes.search_results_inner.y) as usize;
        let idx = panes.search_results_scroll + line;
        if idx < panes.search_results_count {
            search_of(query, results, idx, scroll, Focus::Middle, 0, 0, 0)
        } else {
            search_of(query, results, cursor, scroll, Focus::Middle, ds, dc, dsc)
        }
    } else if rect_contains(panes.search_detail_inner, col, row) {
        search_of(query, results, cursor, scroll, Focus::Detail, ds, dc, dsc)
    } else if rect_contains(panes.search_deps_inner, col, row) {
        let line = (row - panes.search_deps_inner.y) as usize;
        let idx = panes.search_deps_scroll + line;
        search_dep_click_exec(
            query,
            results,
            cursor,
            scroll,
            rf,
            ds,
            dc,
            dsc,
            state,
            status,
            root,
            deps,
            idx,
            panes.search_deps_count,
            false,
        )
    } else if rect_contains(panes.search_revs_inner, col, row) {
        let line = (row - panes.search_revs_inner.y) as usize;
        let idx = panes.search_deps_scroll + line;
        search_dep_click_exec(
            query,
            results,
            cursor,
            scroll,
            rf,
            ds,
            dc,
            dsc,
            state,
            status,
            root,
            deps,
            idx,
            panes.search_revs_count,
            true,
        )
    } else {
        search_of(query, results, cursor, scroll, rf, ds, dc, dsc)
    }
}

fn search_wheel_exec(
    query: String,
    results: Vec<Vec<String>>,
    cursor: usize,
    scroll: usize,
    rf: Focus,
    ds: usize,
    dc: usize,
    dsc: usize,
    panes: &PaneAreas,
    col: u16,
    row: u16,
    down: bool,
) -> (m: Mode)
    requires
        panes.wf(),
        room(cursor),
        room(dc),
    ensures
        m.model() == search_wheel(query@, paths_model(results@), cursor, scroll, rf, ds, dc, dsc, *panes, col, row, down),
{
    if rect_contains(panes.search_results_inner, col, row) {
        let c = if down {
            if results.len() > 0 && cursor + 1 < results.len() {
                cursor + 1
            } else {
                cursor
            }
        } else {
            sat_dec(cursor, 1)
        };
        search_of(query, results, c, scroll, rf, ds, dc, dsc)
    } else if (rect_contains(panes.search_deps_inner, col, row) && rf == Focus::Deps) || (rect_contains(
        panes.search_revs_inner,
        col,
        row,
    ) && rf == Focus::Revs) {
        let count = if rf == Focus::Deps {
            panes.search_deps_count
        } else {
            panes.search_revs_count
        };
        let d = if down {
            if count > 0 && dc + 1 < count {
                dc + 1
            } else {
                dc
            }
        } else {
            sat_dec(dc, 1)
        };
        search_of(query, results, cursor, scroll, rf, ds, d, dsc)
    } else {
        search_of(query, results, cursor, scroll, rf, ds, dc, dsc)
    }
}

// ---------------------------------------------------------------------------
// Keys
// ---------------------------------------------------------------------------

fn pager_key_exec(k: &KeyPress, path: Vec<String>, lines: Vec<String>, scroll: usize, color: Tint, h: u16) -> (m: Mode)
    requires
        room(scroll),
    ensures
        m.model() == pager_key(*k, texts(path@), texts(lines@), scroll, color, h),
{
    let n = lines.len();
    let s = if is_char(k, 'j') || k.code == Key::Down {
        if scroll + 1 < n {
            scroll + 1
        } else {
            scroll
        }
    } else if is_char(k, 'k') || k.code == Key::Up {
        sat_dec(scroll, 1)
    } else if is_char(k, 'g') || k.code == Key::Home {
        0
    } else if is_char(k, 'G') || k.code == Key::End {
        sat_dec(n, 1)
    } else if k.code == Key::PageDown {
        paged_exec(scroll, page_of(h, 4), n)
    } else if k.code == Key::PageUp {
        sat_dec(scroll, page_of(h, 4))
    } else if k.code == Key::Esc || is_char(k, 'q') || is_char(k, 'h') || k.code == Key::Left || k.code
        == Key::Backspace {
        return Mode::Normal;
    } else {
        scroll
    };
    Mode::Pager { path, lines, scroll: s, color }
}

fn open_entry_exec(state: &mut MillerState, root: &Vec<(String, ConfigNode)>) -> (m: Mode)
    requires
        old(state).wf(),
        cursor_full_ok(old(state).nav(), level(root@)),
    ensures
        final(state).wf(),
        (m.model(), final(state).nav()) == open_entry(old(state).nav(), level(root@)),
{
    match get_children_at_path(root, &state.path) {
        Some(children) => {
            if state.cursor < children.len() {
                let c = state.cursor;
                proof {
                    assert(level(children@)[c as int] == (children@[c as int].0@, children@[c as int].1.model()));
                }
                let name = &children[c].0;
                match &children[c].1 {
                    ConfigNode::Branch(_) => {
                        go_down(state, name);
                        Mode::Normal
                    },
                    ConfigNode::Leaf(val) => {
                        let mut full = copy_strings(&state.path);
                        full.push(copy_string(name));
                        proof {
                            assert(texts(full@) =~= texts(state.path@).push(name@));
                        }
                        let lines = format_value_full(val);
                        proof {
                            assert(texts(lines@) =~= full_lines(val.model()));
                        }
                        let color = value_color(val);
                        Mode::Pager { path: full, lines, scroll: 0, color }
                    },
                    ConfigNode::Phantom => {
                        let mut full = copy_strings(&state.path);
                        full.push(copy_string(name));
                        proof {
                            assert(texts(full@) =~= texts(state.path@).push(name@));
                        }
                        let mut lines: Vec<String> = Vec::new();
                        lines.push(String::from_str("! (not serializable or value not used)"));
                        proof {
                            assert(texts(lines@) =~= seq![phantom_note()]);
                        }
                        Mode::Pager { path: full, lines, scroll: 0, color: Tint::Yellow }
                    },
                }
            } else {
                Mode::Normal
            }
        },
        None => Mode::Normal,
    }
}

fn middle_key_exec(k: &KeyPress, state: &mut MillerState, root: &Vec<(String, ConfigNode)>, h: u16, mc: usize) -> (m: Mode)
    requires
        old(state).wf(),
        is_open(*k) ==> cursor_full_ok(old(state).nav(), level(root@)),
        room(old(state).cursor),
        room(old(state).detail_scroll),
    ensures
        final(state).wf(),
        (m.model(), final(state).nav()) == middle_key(*k, old(state).nav(), level(root@), h, mc),
{
    let p = page_of(h, 6);
    if is_char(k, 'j') || k.code == Key::Down {
        if mc > 0 && state.cursor + 1 < mc {
            state.cursor = state.cursor + 1;
            reset_lower_panes(state);
        }
    } else if is_char(k, 'k') || k.code == Key::Up {
        if state.cursor > 0 {
            state.cursor = state.cursor - 1;
            reset_lower_panes(state);
        }
    } else if is_char(k, 'g') || k.code == Key::Home {
        state.cursor = 0;
        reset_lower_panes(state);
    } else if is_char(k, 'G') || k.code == Key::End {
        state.cursor = sat_dec(mc, 1);
        reset_lower_panes(state);
    } else if k.code == Key::PageDown {
        state.cursor = paged_exec(state.cursor, p, mc);
        reset_lower_panes(state);
    } else if k.code == Key::PageUp {
        state.cursor = sat_dec(state.cursor, p);
        reset_lower_panes(state);
    } else if is_char(k, 'l') || k.code == Key::Right || k.code == Key::Enter {
        return open_entry_exec(state, root);
    } else if is_char(k, 'h') || k.code == Key::Left || k.code == Key::Esc {
        if state.path.len() > 0 {
            go_up(state);
        }
    } else if is_char(k, 'd') {
        state.focus = Focus::Detail;
    } else if is_char(k, 'p') {
        state.focus = Focus::Deps;
        state.deps_cursor = 0;
        state.deps_scroll = 0;
    } else if is_char(k, 'n') {
        state.focus = Focus::Revs;
        state.deps_cursor = 0;
        state.deps_scroll = 0;
    } else if is_char(k, 'J') {
        state.detail_scroll = state.detail_scroll + 1;
    } else if is_char(k, 'K') {
        state.detail_scroll = sat_dec(state.detail_scroll, 1);
    } else if is_char(k, '/') {
        let m = search_of(String::new(), Vec::new(), 0, 0, Focus::Middle, 0, 0, 0);
        proof {
            assert(paths_model(Seq::<Vec<String>>::empty()) =~= Seq::<Seq<Seq<char>>>::empty());
        }
        return m;
    } else if is_char(k, '?') {
        return Mode::Help;
    }
    Mode::Normal
}

fn detail_key_exec(k: &KeyPress, state: &mut MillerState, h: u16)
    requires
        room(old(state).detail_scroll),
    ensures
        final(state).path_memory == old(state).path_memory,
        final(state).nav() == detail_key(*k, old(state).nav(), h),
{
    let p = page_of(h, 8);
    if is_char(k, 'j') || k.code == Key::Down {
        state.detail_scroll = state.detail_scroll + 1;
    } else if is_char(k, 'k') || k.code == Key::Up {
        state.detail_scroll = sat_dec(state.detail_scroll, 1);
    } else if k.code == Key::PageDown {
        state.detail_scroll = state.detail_scroll + p;
    } else if k.code == Key::PageUp {
        state.detail_scroll = sat_dec(state.detail_scroll, p);
    } else if k.code == Key::Esc || is_char(k, 'h') || k.code == Key::Left || is_char(k, 'b') {
        state.focus = Focus::Middle;
    } else if is_char(k, 'p') {
        state.focus = Focus::Deps;
        state.deps_cursor = 0;
        state.deps_scroll = 0;
    } else if is_char(k, 'n') {
        state.focus = Focus::Revs;
        state.deps_cursor = 0;
        state.deps_scroll = 0;
    }
}

fn dep_pane_key_exec(
    k: &KeyPress,
    state: &mut MillerState,
    status: &mut Option<String>,
    root: &Vec<(String, ConfigNode)>,
    deps: &DepsIndex,
    h: u16,
    revs: bool,
)
    requires
        old(state).wf(),
        room(old(state).deps_cursor),
    ensures
        final(state).wf(),
        (final(state).nav(), opt_text(*final(status))) == dep_pane_key(
            *k,
            old(state).nav(),
            opt_text(*old(status)),
            level(root@),
            *deps,
            h,
            revs,
        ),
{
    let p = page_of(h, 8);
    let full = current_full_path(state, root);
    let path = join_path(&full);
    let total = dep_count(deps, &path, revs);
    if is_char(k, 'j') || k.code == Key::Down {
        if total > 0 && state.deps_cursor + 1 < total {
            state.deps_cursor = state.deps_cursor + 1;
        }
    } else if is_char(k, 'k') || k.code == Key::Up {
        state.deps_cursor = sat_dec(state.deps_cursor, 1);
    } else if k.code == Key::PageDown {
        state.deps_cursor = paged_exec(state.deps_cursor, p, total);
    } else if k.code == Key::PageUp {
        state.deps_cursor = sat_dec(state.deps_cursor, p);
    } else if k.code == Key::Enter {
        let c = state.deps_cursor;
        try_dep_jump(state, status, root, deps, revs, c);
    } else if k.code == Key::Esc || is_char(k, 'h') || k.code == Key::Left || is_char(k, 'b') {
        state.focus = Focus::Middle;
    } else if is_char(k, 'd') {
        state.focus = Focus::Detail;
    } else if !revs && is_char(k, 'n') {
        state.focus = Focus::Revs;
        state.deps_cursor = 0;
        state.deps_scroll = 0;
    } else if revs && is_char(k, 'p') {
        state.focus = Focus::Deps;
        state.deps_cursor = 0;
        state.deps_scroll = 0;
    }
}

fn search_results_key_exec(
    k: &KeyPress,
    query: String,
    results: Vec<Vec<String>>,
    cursor: usize,
    scroll: usize,
    ds: usize,
    dc: usize,
    dsc: usize,
    state: &mut MillerState,
    status: &mut Option<String>,
    root: &Vec<(String, ConfigNode)>,
    h: u16,
) -> (m: Mode)
    requires
        old(state).wf(),
        room(cursor),
    ensures
        final(state).wf(),
        (StepV {
            mode: m.model(),
            nav: final(state).nav(),
            status: opt_text(*final(status)),
            action: InputAction::Continue,
        }) == search_results_key(
            *k,
            query@,
            paths_model(results@),
            cursor,
            scroll,
            ds,
            dc,
            dsc,
            old(state).nav(),
            opt_text(*old(status)),
            level(root@),
            h,
        ),
{
    let p = page_of(h, 8);
    let n = results.len();
    if k.code == Key::Esc {
        Mode::Normal
    } else if k.code == Key::Enter {
        if n > 0 && cursor < n {
            let target = copy_strings(&results[cursor]);
            proof {
                assert(texts(target@) == paths_model(results@)[cursor as int]);
            }
            let msg = jump_note(&target);
            jump_to_path(state, &target, root);
            *status = Some(msg);
            Mode::Normal
        } else {
            search_of(query, results, cursor, scroll, Focus::Middle, ds, dc, dsc)
        }
    } else if k.code == Key::Tab {
        search_of(query, results, cursor, scroll, Focus::Detail, ds, dc, dsc)
    } else if k.code == Key::Down {
        if n > 0 && cursor + 1 < n {
            search_of(query, results, cursor + 1, scroll, Focus::Middle, 0, 0, 0)
        } else {
            search_of(query, results, cursor, scroll, Focus::Middle, ds, dc, dsc)
        }
    } else if k.code == Key::Up {
        if cursor > 0 {
            search_of(query, results, cursor - 1, scroll, Focus::Middle, 0, 0, 0)
        } else {
            search_of(query, results, cursor, scroll, Focus::Middle, ds, dc, dsc)
        }
    } else if k.code == Key::PageDown {
        let c = paged_exec(cursor, p, n);
        search_of(query, results, c, scroll, Focus::Middle, 0, 0, 0)
    } else if k.code == Key::PageUp {
        let c = sat_dec(cursor, p);
        search_of(query, results, c, scroll, Focus::Middle, 0, 0, 0)
    } else if k.code == Key::Backspace {
        let mut cs = chars_of(query.as_str());
        if cs.len() > 0 {
            cs.pop();
        }
        let q = string_of(&cs);
        proof {
            if query@.len() > 0 {
                assert(q@ =~= query@.drop_last());
            } else {
                assert(q@ =~= query@);
            }
        }
        let found = search_tree(root, &q, &Vec::new());
        proof {
            assert(texts(Seq::<String>::empty()) =~= Seq::<Seq<char>>::empty());
        }
        search_of(q, found, 0, 0, Focus::Middle, 0, 0, 0)
    } else {
        match k.code {
            Key::Char(c) => {
                let mut q = query;
                push_char(&mut q, c);
                let found = search_tree(root, &q, &Vec::new());
                proof {
                    assert(texts(Seq::<String>::empty()) =~= Seq::<Seq<char>>::empty());
                }
                search_of(q, found, 0, 0, Focus::Middle, 0, 0, 0)
            },
            _ => search_of(query, results, cursor, scroll, Focus::Middle, ds, dc, dsc),
        }
    }
}

fn search_detail_key_exec(
    k: &KeyPress,
    query: String,
    results: Vec<Vec<String>>,
    cursor: usize,
    scroll: usize,
    ds: usize,
    dc: usize,
    dsc: usize,
    h: u16,
) -> (m: Mode)
    requires
        room(ds),
    ensures
        m.model() == search_detail_key(*k, query@, paths_model(results@), cursor, scroll, ds, dc, dsc, h),
{
    let p = page_of(h, 8);
    if is_char(k, 'j') || k.code == Key::Down {
        search_of(query, results, cursor, scroll, Focus::Detail, ds + 1, dc, dsc)
    } else if is_char(k, 'k') || k.code == Key::Up {
        search_of(query, results, cursor, scroll, Focus::Detail, sat_dec(ds, 1), dc, dsc)
    } else if k.code == Key::PageDown {
        search_of(query, results, cursor, scroll, Focus::Detail, ds + p, dc, dsc)
    } else if k.code == Key::PageUp {
        search_of(query, results, cursor, scroll, Focus::Detail, sat_dec(ds, p), dc, dsc)
    } else if is_char(k, 'p') {
        search_of(query, results, cursor, scroll, Focus::Deps, ds, 0, 0)
    } else if is_char(k, 'n') {
        search_of(query, results, cursor, scroll, Focus::Revs, ds, 0, 0)
    } else if k.code == Key::Esc || is_char(k, 'h') || k.code == Key::Tab {
        search_of(query, results, cursor, scroll, Focus::Middle, ds, dc, dsc)
    } else {
        search_of(query, results, cursor, scroll, Focus::Detail, ds, dc, dsc)
    }
}

fn search_dep_key_exec(
    k: &KeyPress,
    query: String,
    results: Vec<Vec<String>>,
    cursor: usize,
    scroll: usize,
    ds: usize,
    dc: usize,
    dsc: usize,
    state: &mut MillerState,
    status: &mut Option<String>,
    root: &Vec<(String, ConfigNode)>,
    deps: &DepsIndex,
    h: u16,
    revs: bool,
) -> (m: Mode)
    requires
        old(state).wf(),
        room(dc),
    ensures
        final(state).wf(),
        (StepV {
            mode: m.model(),
            nav: final(state).nav(),
            status: opt_text(*final(status)),
            action: InputAction::Continue,
        }) == search_dep_key(
            *k,
            query@,
            paths_model(results@),
            cursor,
            scroll,
            ds,
            dc,
            dsc,
            old(state).nav(),
            opt_text(*old(status)),
            level(root@),
            *deps,
            h,
            revs,
        ),
{
    let p = page_of(h, 8);
    let pane = if revs {
        Focus::Revs
    } else {
        Focus::Deps
    };
    let path = selected_path(&results, cursor);
    let total = dep_count(deps, &path, revs);
    if is_char(k, 'j') || k.code == Key::Down {
        let d = if total > 0 && dc + 1 < total {
            dc + 1
        } else {
            dc
        };
        search_of(query, results, cursor, scroll, pane, ds, d, dsc)
    } else if is_char(k, 'k') || k.code == Key::Up {
        search_of(query, results, cursor, scroll, pane, ds, sat_dec(dc, 1), dsc)
    } else if k.code == Key::PageDown {
        search_of(query, results, cursor, scroll, pane, ds, paged_exec(dc, p, total), dsc)
    } else if k.code == Key::PageUp {
        search_of(query, results, cursor, scroll, pane, ds, sat_dec(dc, p), dsc)
    } else if k.code == Key::Enter {
        if dc < total {
            match dep_list(deps, &path, revs) {
                Some(items) => {
                    let target = split_path(items[dc].as_str());
                    let msg = jump_note(&target);
                    jump_to_path(state, &target, root);
                    *status = Some(msg);
                    Mode::Normal
                },
                None => search_of(query, results, cursor, scroll, pane, ds, dc, dsc),
            }
        } else {
            search_of(query, results, cursor, scroll, pane, ds, dc, dsc)
        }
    } else if is_char(k, 'd') {
        search_of(query, results, cursor, scroll, Focus::Detail, ds, dc, dsc)
    } else if !revs && is_char(k, 'n') {
        search_of(query, results, cursor, scroll, Focus::Revs, ds, 0, 0)
    } else if revs && is_char(k, 'p') {
        search_of(query, results, cursor, scroll, Focus::Deps, ds, 0, 0)
    } else if k.code == Key::Esc || is_char(k, 'h') || k.code == Key::Tab {
        search_of(query, results, cursor, scroll, Focus::Middle, ds, dc, dsc)
    } else {
        search_of(query, results, cursor, scroll, pane, ds, dc, dsc)
    }
}

// ---------------------------------------------------------------------------
// One event
// ---------------------------------------------------------------------------

/// Every counter that an event may advance has room to grow by a page.
pub open spec fn counters_fit(mode: ModeV, nav: Nav) -> bool {
    &&& room(nav.cursor)
    &&& room(nav.detail_scroll)
    &&& room(nav.deps_cursor)
    &&& match mode {
        ModeV::Search { cursor, detail_scroll, deps_cursor, .. } => room(cursor) && room(detail_scroll) && room(
            deps_cursor,
        ),
        ModeV::Pager { scroll, .. } => room(scroll),
        _ => true,
    }
}

/// Whether every counter that an event may advance has room to grow by a page.
pub fn counters_have_room(mode: &Mode, state: &MillerState) -> (b: bool)
    ensures
        b == counters_fit(mode.model(), state.nav()),
{
    let limit = usize::MAX - 65536;
    let base = state.cursor <= limit && state.detail_scroll <= limit && state.deps_cursor <= limit;
    match mode {
        Mode::Search { cursor, detail_scroll, deps_cursor, .. } => base && *cursor <= limit && *detail_scroll
            <= limit && *deps_cursor <= limit,
        Mode::Pager { scroll, .. } => base && *scroll <= limit,
        _ => base,
    }
}

fn normal_key_exec(
    k: &KeyPress,
    mode: &mut Mode,
    state: &mut MillerState,
    status: &mut Option<String>,
    root: &Vec<(String, ConfigNode)>,
    deps: &DepsIndex,
    h: u16,
    mc: usize,
) -> (action: InputAction)
    requires
        old(state).wf(),
        is_open(*k) && old(state).focus == Focus::Middle ==> cursor_full_ok(old(state).nav(), level(root@)),
        counters_fit(ModeV::Normal, old(state).nav()),
    ensures
        final(state).wf(),
        (StepV {
            mode: final(mode).model(),
            nav: final(state).nav(),
            status: opt_text(*final(status)),
            action,
        }) == normal_key(*k, old(state).nav(), level(root@), *deps, h, mc),
{
    *status = None;
    *mode = Mode::Normal;
    if is_char(k, 'q') {
        return InputAction::Quit;
    }
    match state.focus {
        Focus::Middle => {
            let m = middle_key_exec(k, state, root, h, mc);
            *mode = m;
        },
        Focus::Detail => {
            detail_key_exec(k, state, h);
        },
        Focus::Deps => {
            dep_pane_key_exec(k, state, status, root, deps, h, false);
        },
        Focus::Revs => {
            dep_pane_key_exec(k, state, status, root, deps, h, true);
        },
    }
    InputAction::Continue
}

/// Handle one event in the tree viewer: update the mode, the position and
/// the status message, and say whether to go on.
pub fn handle_input(
    input: &InputEvent,
    mode: &mut Mode,
    state: &mut MillerState,
    root_children: &Vec<(String, ConfigNode)>,
    deps_index: &DepsIndex,
    status_msg: &mut Option<String>,
    pane_areas: &PaneAreas,
    terminal_height: u16,
    middle_count: usize,
) -> (action: InputAction)
    requires
        old(state).wf(),
        pane_areas.wf(),
        counters_fit(old(mode).model(), old(state).nav()),
        opens_entry(*input, old(mode).model(), old(state).nav()) ==> cursor_full_ok(old(state).nav(), level(root_children@)),
    ensures
        final(state).wf(),
        (StepV {
            mode: final(mode).model(),
            nav: final(state).nav(),
            status: opt_text(*final(status_msg)),
            action,
        }) == input_step(
            *input,
            old(mode).model(),
            old(state).nav(),
            opt_text(*old(status_msg)),
            level(root_children@),
            *deps_index,
            *pane_areas,
            terminal_height,
            middle_count,
        ),
{
    let mut current = Mode::Normal;
    std::mem::swap(&mut current, mode);
    match input {
        InputEvent::Mouse(m) => {
            let col = m.column;
            let row = m.row;
            match m.kind {
                MouseKind::LeftDown => {
                    match current {
                        Mode::Help => {
                            *mode = Mode::Normal;
                        },
                        Mode::Normal => {
                            click_normal(state, status_msg, root_children, deps_index, pane_areas, col, row);
                            *mode = Mode::Normal;
                        },
                        Mode::Search { query, results, cursor, scroll, right_focus, detail_scroll, deps_cursor, deps_scroll } => {
                            let next = search_click_exec(
                                query,
                                results,
                                cursor,
                                scroll,
                                right_focus,
                                detail_scroll,
                                deps_cursor,
                                deps_scroll,
                                state,
                                status_msg,
                                root_children,
                                deps_index,
                                pane_areas,
                                col,
                                row,
                            );
                            *mode = next;
                        },
                        Mode::Pager { path, lines, scroll, color } => {
                            *mode = Mode::Pager { path, lines, scroll, color };
                        },
                    }
                },
                MouseKind::ScrollDown | MouseKind::ScrollUp => {
                    let down = m.kind == MouseKind::ScrollDown;
                    match current {
                        Mode::Help => {
                            wheel_normal(state, root_children, deps_index, pane_areas, col, row, middle_count, down);
                            *mode = Mode::Help;
                        },
                        Mode::Normal => {
                            wheel_normal(state, root_children, deps_index, pane_areas, col, row, middle_count, down);
                            *mode = Mode::Normal;
                        },
                        Mode::Search { query, results, cursor, scroll, right_focus, detail_scroll, deps_cursor, deps_scroll } => {
                            let next = search_wheel_exec(
                                query,
                                results,
                                cursor,
                                scroll,
                                right_focus,
                                detail_scroll,
                                deps_cursor,
                                deps_scroll,
                                pane_areas,
                                col,
                                row,
                                down,
                            );
                            *mode = next;
                        },
                        Mode::Pager { path, lines, scroll, color } => {
                            let s = if down {
                                if scroll + 1 < lines.len() {
                                    scroll + 1
                                } else {
                                    scroll
                                }
                            } else {
                                sat_dec(scroll, 1)
                            };
                            *mode = Mode::Pager { path, lines, scroll: s, color };
                        },
                    }
                },
                MouseKind::Other => {
                    *mode = current;
                },
            }
            InputAction::Continue
        },
        InputEvent::Key(k) => {
            if is_char(k, 'c') && k.ctrl {
                *mode = current;
                return InputAction::Quit;
            }
            match current {
                Mode::Help => {
                    if is_char(k, '?') || k.code == Key::Esc || is_char(k, 'q') {
                        *mode = Mode::Normal;
                    } else {
                        *mode = Mode::Help;
                    }
                    InputAction::Continue
                },
                Mode::Pager { path, lines, scroll, color } => {
                    *mode = pager_key_exec(k, path, lines, scroll, color, terminal_height);
                    InputAction::Continue
                },
                Mode::Normal => normal_key_exec(
                    k,
                    mode,
                    state,
                    status_msg,
                    root_children,
                    deps_index,
                    terminal_height,
                    middle_count,
                ),
                Mode::Search { query, results, cursor, scroll, right_focus, detail_scroll, deps_cursor, deps_scroll } => {
                    let next = match right_focus {
                        Focus::Middle => search_results_key_exec(
                            k,
                            query,
                            results,
                            cursor,
                            scroll,
                            detail_scroll,
                            deps_cursor,
                            deps_scroll,
                            state,
                            status_msg,
                            root_children,
                            terminal_height,
                        ),
                        Focus::Detail => search_detail_key_exec(
                            k,
                            query,
                            results,
                            cursor,
                            scroll,
                            detail_scroll,
                            deps_cursor,
                            deps_scroll,
                            terminal_height,
                        ),
                        Focus::Deps => search_dep_key_exec(
                            k,
                            query,
                            results,
                            cursor,
                            scroll,
                            detail_scroll,
                            deps_cursor,
                            deps_scroll,
                            state,
                            status_msg,
                            root_children,
                            deps_index,
                            terminal_height,
                            false,
                        ),
                        Focus::Revs => search_dep_key_exec(
                            k,
                            query,
                            results,
                            cursor,
                            scroll,
                            detail_scroll,
                            deps_cursor,
                            deps_scroll,
                            state,
                            status_msg,
                            root_children,
                            deps_index,
                            terminal_height,
                            true,
                        ),
                    };
                    *mode = next;
                    InputAction::Continue
                },
            }
        },
    }
}

} // verus!
