use vstd::prelude::*;

use crate::assoc::{assoc_map, keys_distinct, lemma_assoc_map, lemma_assoc_update};
use crate::deps::strings_equal;
use crate::json::{Json, JsonValue};
use crate::keys::min_int;
use crate::paths::{copy_strings, texts};
use crate::text::copy_string;
use crate::tree::{
    node_at, children_at, find_name, get_children_at_path, lemma_branch_model, lemma_find_name, level, position_of,
    ConfigNode, Node,
};

verus! {

// ---------------------------------------------------------------------------
// Screen areas
// ---------------------------------------------------------------------------

/// A rectangle of terminal cells.
#[derive(PartialEq, Eq, Structural, Clone, Copy, Debug)]
pub struct Rect {
    pub x: u16,
    pub y: u16,
    pub width: u16,
    pub height: u16,
}

impl Rect {
    /// The rectangle ends on the screen: its right and bottom edges fit in a `u16`.
    pub open spec fn fits(&self) -> bool {
        self.x + self.width <= u16::MAX && self.y + self.height <= u16::MAX
    }

    /// The empty rectangle at the origin.
    pub fn empty() -> (r: Rect)
        ensures
            r.x == 0 && r.y == 0 && r.width == 0 && r.height == 0,
    {
        Rect { x: 0, y: 0, width: 0, height: 0 }
    }
}

/// The cell (`col`, `row`) lies in `r`.
pub open spec fn inside(r: Rect, col: u16, row: u16) -> bool {
    col >= r.x && col < r.x + r.width && row >= r.y && row < r.y + r.height
}

pub fn rect_contains(r: Rect, col: u16, row: u16) -> (b: bool)
    requires
        r.fits(),
    ensures
        b == inside(r, col, row),
{
    col >= r.x && col < r.x + r.width && row >= r.y && row < r.y + r.height
}

// ---------------------------------------------------------------------------
// Keeping a cursor in view
// ---------------------------------------------------------------------------

/// The cursor and scroll offset after clamping: the cursor moved onto the
/// last of `total` items when past it, and the window of `visible` rows
/// starting at the scroll offset moved just enough to show the cursor.
pub open spec fn clamped(cursor: int, scroll: int, total: int, visible: int) -> (int, int) {
    if total == 0 {
        (0, 0)
    } else {
        let c = min_int(cursor, total - 1);
        if c < scroll {
            (c, c)
        } else if c >= scroll + visible {
            (c, c - visible + 1)
        } else {
            (c, scroll)
        }
    }
}

pub fn clamp_cursor(cursor: &mut usize, scroll: &mut usize, total: usize, visible: usize)
    requires
        total > 0 && min_int(*old(cursor) as int, total - 1) >= *old(scroll) ==> *old(scroll) + visible
            <= usize::MAX,
    ensures
        (*final(cursor) as int, *final(scroll) as int) == clamped(
            *old(cursor) as int,
            *old(scroll) as int,
            total as int,
            visible as int,
        ),
{
    if total == 0 {
        *cursor = 0;
        *scroll = 0;
        return;
    }
    if *cursor >= total {
        *cursor = total - 1;
    }
    if *cursor < *scroll {
        *scroll = *cursor;
    } else if *cursor >= *scroll + visible {
        *scroll = *cursor - visible + 1;
    }
}

/// After clamping, a non-empty list has the cursor on one of its items and
/// inside the visible window.
pub proof fn lemma_clamped_in_view(cursor: int, scroll: int, total: int, visible: int)
    requires
        total > 0,
        visible > 0,
        cursor >= 0,
        scroll >= 0,
    ensures
        ({
            let (c, s) = clamped(cursor, scroll, total, visible);
            0 <= c < total && 0 <= s <= c < s + visible
        }),
{
}

// ---------------------------------------------------------------------------
// Colors of values and nodes
// ---------------------------------------------------------------------------

/// The colors of the theme that the tree viewer gives values and nodes.
#[derive(PartialEq, Eq, Structural, Clone, Copy, Debug)]
pub enum Tint {
    Green,
    Red,
    Magenta,
    Comment,
    Yellow,
    Cyan,
    Blue,
    /// The default foreground.
    Fg,
    White,
    /// The border of a pane without focus.
    Gutter,
    /// The dark text on the description pills and status messages.
    Dark,
    /// The terminal's own red.
    TermRed,
    /// The terminal's own green.
    TermGreen,
    /// The terminal's dark gray, dimmed.
    Faint,
    /// The terminal's dark gray.
    TermGray,
    /// The terminal's black.
    TermBlack,
}

/// The color of a value: true green, false red, numbers magenta, strings
/// green, null gray, lists yellow, sets gray.
pub open spec fn value_tint(v: Json) -> Tint {
    match v {
        Json::Bool(b) => if b {
            Tint::Green
        } else {
            Tint::Red
        },
        Json::Number(_) => Tint::Magenta,
        Json::Str(_) => Tint::Green,
        Json::Null => Tint::Comment,
        Json::Array(_) => Tint::Yellow,
        Json::Object(_) => Tint::Comment,
    }
}

pub fn value_color(value: &JsonValue) -> (t: Tint)
    ensures
        t == value_tint(value.model()),
{
    match value {
        JsonValue::Bool(b) => if *b {
            Tint::Green
        } else {
            Tint::Red
        },
        JsonValue::Number(_) => Tint::Magenta,
        JsonValue::Str(_) => Tint::Green,
        JsonValue::Null => Tint::Comment,
        JsonValue::Array(_) => Tint::Yellow,
        JsonValue::Object(_) => Tint::Comment,
    }
}

/// The color of a node's name: branches blue, placeholders yellow, leaves
/// by the kind of their value.
pub open spec fn name_tint(n: Node) -> Tint {
    match n {
        Node::Branch(_) => Tint::Blue,
        Node::Phantom => Tint::Yellow,
        Node::Leaf(v) => match v {
            Json::Bool(_) => Tint::Cyan,
            Json::Str(_) => Tint::Green,
            Json::Number(_) => Tint::Magenta,
            Json::Null => Tint::Comment,
            Json::Array(_) => Tint::Yellow,
            Json::Object(_) => Tint::Comment,
        },
    }
}

pub fn node_name_color(node: &ConfigNode) -> (t: Tint)
    ensures
        t == name_tint(node.model()),
{
    match node {
        ConfigNode::Branch(_) => Tint::Blue,
        ConfigNode::Phantom => Tint::Yellow,
        ConfigNode::Leaf(v) => match v {
            JsonValue::Bool(_) => Tint::Cyan,
            JsonValue::Str(_) => Tint::Green,
            JsonValue::Number(_) => Tint::Magenta,
            JsonValue::Null => Tint::Comment,
            JsonValue::Array(_) => Tint::Yellow,
            JsonValue::Object(_) => Tint::Comment,
        },
    }
}

// ---------------------------------------------------------------------------
// The browser's position
// ---------------------------------------------------------------------------

/// Which pane has the keyboard.
#[derive(PartialEq, Eq, Structural, Clone, Copy, Debug)]
pub enum Focus {
    Middle,
    Detail,
    Deps,
    Revs,
}

/// Where the browser is: the path of the level shown in the middle pane,
/// the cursor and scroll offset there, the cursor and scroll offset last
/// used at each visited level, and the state of the lower panes.
pub struct MillerState {
    pub path: Vec<String>,
    pub cursor: usize,
    pub scroll: usize,
    pub path_memory: Vec<(Vec<String>, (usize, usize))>,
    pub detail_scroll: usize,
    pub deps_cursor: usize,
    pub deps_scroll: usize,
    pub focus: Focus,
}

/// The model of the browser's position.
pub struct Nav {
    pub path: Seq<Seq<char>>,
    pub cursor: usize,
    pub scroll: usize,
    pub memory: Map<Seq<Seq<char>>, (usize, usize)>,
    pub detail_scroll: usize,
    pub deps_cursor: usize,
    pub deps_scroll: usize,
    pub focus: Focus,
}

/// The model of the remembered positions.
pub open spec fn memory_list(m: Seq<(Vec<String>, (usize, usize))>) -> Seq<(Seq<Seq<char>>, (usize, usize))> {
    Seq::new(m.len(), |i: int| (texts(m[i].0@), m[i].1))
}

impl MillerState {
    pub open spec fn nav(&self) -> Nav {
        Nav {
            path: texts(self.path@),
            cursor: self.cursor,
            scroll: self.scroll,
            memory: assoc_map(memory_list(self.path_memory@)),
            detail_scroll: self.detail_scroll,
            deps_cursor: self.deps_cursor,
            deps_scroll: self.deps_scroll,
            focus: self.focus,
        }
    }

    /// No path is remembered twice.
    pub open spec fn wf(&self) -> bool {
        keys_distinct(memory_list(self.path_memory@))
    }

    /// The browser at the top level, with nothing remembered.
    pub fn new() -> (s: MillerState)
        ensures
            s.wf(),
            s.nav() == (Nav {
                path: seq![],
                cursor: 0,
                scroll: 0,
                memory: Map::empty(),
                detail_scroll: 0,
                deps_cursor: 0,
                deps_scroll: 0,
                focus: Focus::Middle,
            }),
    {
        let s = MillerState {
            path: Vec::new(),
            cursor: 0,
            scroll: 0,
            path_memory: Vec::new(),
            detail_scroll: 0,
            deps_cursor: 0,
            deps_scroll: 0,
            focus: Focus::Middle,
        };
        proof {
            assert(texts(s.path@) =~= Seq::<Seq<char>>::empty());
            assert(assoc_map(memory_list(s.path_memory@)) =~= Map::<Seq<Seq<char>>, (usize, usize)>::empty());
        }
        s
    }

    /// Remembers `pos` for `key`.
    pub fn remember(&mut self, key: &Vec<String>, pos: (usize, usize))
        requires
            old(self).wf(),
        ensures
            final(self).wf(),
            final(self).nav() == (Nav { memory: old(self).nav().memory.insert(texts(key@), pos), ..old(self).nav() }),
    {
        let ghost l = memory_list(self.path_memory@);
        let mut i: usize = 0;
        while i < self.path_memory.len()
            invariant
                i <= self.path_memory.len(),
                l == memory_list(self.path_memory@),
                self.path_memory@ == old(self).path_memory@,
                self.path@ == old(self).path@,
                self.cursor == old(self).cursor,
                self.scroll == old(self).scroll,
                self.detail_scroll == old(self).detail_scroll,
                self.deps_cursor == old(self).deps_cursor,
                self.deps_scroll == old(self).deps_scroll,
                self.focus == old(self).focus,
                keys_distinct(l),
                forall|j: int| 0 <= j < i ==> l[j].0 != texts(key@),
            decreases self.path_memory.len() - i,
        {
            if strings_equal(&self.path_memory[i].0, key) {
                let k = copy_strings(key);
                self.path_memory.set(i, (k, pos));
                proof {
                    assert(memory_list(self.path_memory@) =~= l.update(i as int, (l[i as int].0, pos)));
                    lemma_assoc_update(l, i as int, pos);
                    assert(final(self).nav() == (Nav { memory: old(self).nav().memory.insert(texts(key@), pos), ..old(self).nav() }));
                }
                return;
            }
            i += 1;
        }
        let k = copy_strings(key);
        self.path_memory.push((k, pos));
        proof {
            let u = memory_list(self.path_memory@);
            assert(u =~= l.push((texts(key@), pos)));
            assert(u.drop_last() =~= l);
            assert forall|a: int, b: int| 0 <= a < b < u.len() implies (#[trigger] u[a]).0 != (#[trigger] u[b]).0 by {
                if b < l.len() {
                    assert(u[a] == l[a] && u[b] == l[b]);
                } else {
                    assert(u[a] == l[a]);
                }
            }
        }
    }

    /// The position remembered for `key`, or the top of the list.
    pub fn recall(&self, key: &Vec<String>) -> (pos: (usize, usize))
        requires
            self.wf(),
        ensures
            pos == recalled(self.nav().memory, texts(key@)),
    {
        let ghost l = memory_list(self.path_memory@);
        proof {
            lemma_assoc_map(l);
        }
        let mut i: usize = 0;
        while i < self.path_memory.len()
            invariant
                i <= self.path_memory.len(),
                l == memory_list(self.path_memory@),
                keys_distinct(l),
                forall|j: int| 0 <= j < i ==> l[j].0 != texts(key@),
            decreases self.path_memory.len() - i,
        {
            if strings_equal(&self.path_memory[i].0, key) {
                proof {
                    lemma_assoc_map(l);
                    assert(l[i as int].0 == texts(key@));
                }
                return self.path_memory[i].1;
            }
            i += 1;
        }
        proof {
            lemma_assoc_map(l);
            if assoc_map(l).contains_key(texts(key@)) {
                let j = choose|j: int| 0 <= j < l.len() && l[j].0 == texts(key@);
            }
        }
        (0, 0)
    }
}

/// The position remembered for `key`, or the top of the list.
pub open spec fn recalled(memory: Map<Seq<Seq<char>>, (usize, usize)>, key: Seq<Seq<char>>) -> (usize, usize) {
    if memory.contains_key(key) {
        memory[key]
    } else {
        (0, 0)
    }
}

/// The path of the node under the cursor: the current path and the name
/// of the entry under the cursor, when there is one.
pub open spec fn full_path_of(nav: Nav, lv: Seq<(Seq<char>, Node)>) -> Seq<Seq<char>> {
    match children_at(lv, nav.path) {
        Some(ch) => if nav.cursor < ch.len() {
            nav.path.push(ch[nav.cursor as int].0)
        } else {
            nav.path
        },
        None => nav.path,
    }
}

pub fn current_full_path(state: &MillerState, root: &Vec<(String, ConfigNode)>) -> (p: Vec<String>)
    ensures
        texts(p@) == full_path_of(state.nav(), level(root@)),
{
    let mut p = copy_strings(&state.path);
    match get_children_at_path(root, &state.path) {
        Some(children) => {
            if state.cursor < children.len() {
                let ghost prev = p@;
                p.push(copy_string(&children[state.cursor].0));
                proof {
                    assert(level(children@)[state.cursor as int].0 == children@[state.cursor as int].0@);
                    assert(texts(p@) =~= texts(prev).push(children@[state.cursor as int].0@));
                }
            }
        },
        None => {},
    }
    p
}

// ---------------------------------------------------------------------------
// Jumping to a path
// ---------------------------------------------------------------------------

/// Following `segs` from `lv` as the jump does: at each segment found, the
/// path so far is remembered with the segment's index as cursor, and the
/// segment is entered. Gives the path and memory reached, and the level
/// reached, or `None` when a segment is missing or is not a branch.
pub open spec fn jump_walk(
    lv: Seq<(Seq<char>, Node)>,
    segs: Seq<Seq<char>>,
    path: Seq<Seq<char>>,
    memory: Map<Seq<Seq<char>>, (usize, usize)>,
) -> (Seq<Seq<char>>, Map<Seq<Seq<char>>, (usize, usize)>, Option<Seq<(Seq<char>, Node)>>)
    decreases segs.len(),
{
    if segs.len() == 0 {
        (path, memory, Some(lv))
    } else {
        match find_name(lv, segs[0]) {
            Some(idx) => {
                let m2 = memory.insert(path, (idx as usize, 0usize));
                let p2 = path.push(segs[0]);
                match lv[idx].1 {
                    Node::Branch(ch) => jump_walk(ch, segs.drop_first(), p2, m2),
                    _ => (p2, m2, None),
                }
            },
            None => (path, memory, None),
        }
    }
}

/// The browser after jumping to `target`: the current position is
/// remembered, the lower panes reset, and the parent path followed; when it
/// can be followed to the end, the cursor goes to the target's name (or the
/// top) and the middle pane takes the focus.
pub open spec fn jumped(nav: Nav, target: Seq<Seq<char>>, lv: Seq<(Seq<char>, Node)>) -> Nav {
    if target.len() == 0 {
        nav
    } else {
        let m1 = nav.memory.insert(nav.path, (nav.cursor, nav.scroll));
        let (p, m, reached) = jump_walk(lv, target.drop_last(), seq![], m1);
        let base = Nav {
            path: p,
            memory: m,
            scroll: 0,
            detail_scroll: 0,
            deps_cursor: 0,
            deps_scroll: 0,
            ..nav
        };
        match reached {
            Some(ch) => Nav {
                cursor: match find_name(ch, target.last()) {
                    Some(i) => i as usize,
                    None => 0,
                },
                focus: Focus::Middle,
                ..base
            },
            None => base,
        }
    }
}

pub fn jump_to_path(state: &mut MillerState, target_path: &Vec<String>, root: &Vec<(String, ConfigNode)>)
    requires
        old(state).wf(),
    ensures
        final(state).wf(),
        final(state).nav() == jumped(old(state).nav(), texts(target_path@), level(root@)),
{
    if target_path.len() == 0 {
        return;
    }
    let here = copy_strings(&state.path);
    let pos = (state.cursor, state.scroll);
    state.remember(&here, pos);
    state.path = Vec::new();
    state.scroll = 0;
    state.detail_scroll = 0;
    state.deps_cursor = 0;
    state.deps_scroll = 0;
    let ghost tp = texts(target_path@);
    let ghost parent = tp.drop_last();
    let ghost m1 = old(state).nav().memory.insert(old(state).nav().path, (old(state).cursor, old(state).scroll));
    let n = target_path.len() - 1;
    let mut current: &Vec<(String, ConfigNode)> = root;
    let mut i: usize = 0;
    proof {
        assert(texts(state.path@) =~= Seq::<Seq<char>>::empty());
        assert(parent.skip(0) =~= parent);
    }
    while i < n
        invariant
            n == target_path@.len() - 1,
            i <= n,
            tp == texts(target_path@),
            parent == tp.drop_last(),
            m1 == old(state).nav().memory.insert(old(state).nav().path, (old(state).cursor, old(state).scroll)),
            state.wf(),
            state.cursor == old(state).cursor,
            state.focus == old(state).focus,
            state.scroll == 0,
            state.detail_scroll == 0,
            state.deps_cursor == 0,
            state.deps_scroll == 0,
            jump_walk(level(root@), parent, seq![], m1) == jump_walk(
                level(current@),
                parent.skip(i as int),
                texts(state.path@),
                state.nav().memory,
            ),
        decreases n - i,
    {
        let seg = &target_path[i];
        let ghost rest = parent.skip(i as int);
        proof {
            assert(rest[0] == seg@);
            assert(rest.drop_first() =~= parent.skip(i + 1));
            lemma_find_name(level(current@), seg@);
        }
        let ghost mem_before = state.nav().memory;
        let ghost path_before = texts(state.path@);
        match position_of(current, seg) {
            Some(idx) => {
                let here = copy_strings(&state.path);
                state.remember(&here, (idx, 0));
                let ghost before = texts(state.path@);
                state.path.push(copy_string(seg));
                proof {
                    assert(texts(state.path@) =~= before.push(seg@));
                    assert(level(current@)[idx as int].1 == current@[idx as int].1.model());
                }
                match &current[idx].1 {
                    ConfigNode::Branch(children) => {
                        proof {
                            lemma_branch_model(children);
                        }
                        current = children;
                    },
                    _ => {
                        proof {
                            assert(jump_walk(level(current@), rest, path_before, mem_before) == (
                                texts(state.path@),
                                state.nav().memory,
                                None::<Seq<(Seq<char>, Node)>>,
                            ));
                            let tpl = texts(target_path@);
                            assert(tpl.drop_last() == parent);
                        }
                        return;
                    },
                }
            },
            None => {
                proof {
                    assert(jump_walk(level(current@), rest, path_before, mem_before) == (
                        path_before,
                        mem_before,
                        None::<Seq<(Seq<char>, Node)>>,
                    ));
                }
                return;
            },
        }
        i += 1;
    }
    proof {
        assert(parent.skip(n as int) =~= Seq::<Seq<char>>::empty());
        assert(tp.last() == target_path@[n as int]@);
    }
    let leaf = &target_path[n];
    state.cursor = match position_of(current, leaf) {
        Some(i) => i,
        None => 0,
    };
    state.focus = Focus::Middle;
}

/// Following segments as the jump does reaches the same level as
/// `children_at`, and the path it builds is the segments followed.
pub proof fn lemma_jump_walk(
    lv: Seq<(Seq<char>, Node)>,
    segs: Seq<Seq<char>>,
    path: Seq<Seq<char>>,
    memory: Map<Seq<Seq<char>>, (usize, usize)>,
)
    ensures
        jump_walk(lv, segs, path, memory).2 == children_at(lv, segs),
        jump_walk(lv, segs, path, memory).2 is Some ==> jump_walk(lv, segs, path, memory).0 == path + segs,
    decreases segs.len(),
{
    if segs.len() == 0 {
        assert(path + segs =~= path);
    } else {
        match find_name(lv, segs[0]) {
            Some(idx) => {
                let m2 = memory.insert(path, (idx as usize, 0usize));
                let p2 = path.push(segs[0]);
                match lv[idx].1 {
                    Node::Branch(ch) => {
                        lemma_jump_walk(ch, segs.drop_first(), p2, m2);
                        assert(p2 + segs.drop_first() =~= path + segs);
                    },
                    _ => {},
                }
            },
            None => {},
        }
    }
}

/// Jumping to the path of a node that exists puts the cursor on that node.
pub proof fn lemma_jump_reaches(nav: Nav, target: Seq<Seq<char>>, lv: Seq<(Seq<char>, Node)>)
    requires
        target.len() >= 1,
        node_at(lv, target.drop_last(), target.last()) is Some,
        children_at(lv, target.drop_last())->0.len() <= usize::MAX,
    ensures
        full_path_of(jumped(nav, target, lv), lv) == target,
{
    let parent = target.drop_last();
    let m1 = nav.memory.insert(nav.path, (nav.cursor, nav.scroll));
    lemma_jump_walk(lv, parent, seq![], m1);
    let ch = children_at(lv, parent)->0;
    lemma_find_name(ch, target.last());
    assert(Seq::<Seq<char>>::empty() + parent =~= parent);
    assert(parent.push(target.last()) =~= target);
    let w = jump_walk(lv, parent, seq![], m1);
    assert(w.2 == Some(ch));
    assert(w.0 == parent);
    let i = find_name(ch, target.last())->0;
    let j = jumped(nav, target, lv);
    assert(j.path == parent);
    assert(i < ch.len());
    assert(j.cursor == i);
    assert(ch[i].0 == target.last());
}

} // verus!
