use vstd::prelude::*;

use crate::browse::{clamp_cursor, clamped, name_tint, node_name_color, Focus, MillerState, Nav, Rect, Tint};
use crate::browse_input::{room, Mode, ModeV, PaneAreas};
use crate::checks::full_fits;
use crate::deps::{table_get, table_model, DepsIndex};
use crate::panes::{
    blanks, bold, dep_list, dep_list_fits, dep_list_ok, detail_content, line_model, lines_model, pad_blank,
    pane_list, pane_list_fits, pane_list_ok, push_line, render_dep_list, render_detail_info, render_pane_list,
    repeated, tinted, window, window_of, Piece, PieceV, Shade,
};
use crate::paths::{copy_strings, join_dots, join_path, texts};
use crate::results::{search_line, search_line_fits, search_line_ok, render_search_result_line};
use crate::text::{chars_of, copy_string, push_char};
use crate::theme::{
    bordered, bordered_inner, centered_box, centered_ok, centered_rect, footer_pill, keyed_block, make_block, make_block_keyed, pill,
    plain_block, raw, split_area, split_ok, BlockV, BlockView, Constraint,
};
use crate::tree::{
    children_at, children_at_prefix, find_name, get_children_at_path, lemma_branch_model, level, lookup, lookup_node,
    paths_model, position_of, ConfigNode, Node,
};
use crate::values::{decimal, full_ok, push_decimal};

verus! {

// ---------------------------------------------------------------------------
// What a frame draws
// ---------------------------------------------------------------------------

/// One thing to draw: lines in an area, inside a bordered block when there
/// is one (the lines then go inside its borders), on a background; the area
/// is cleared first when `clear` is set. With `rule` and no block, a plain
/// vertical line runs down the right edge and the lines go left of it.
pub struct Panel {
    pub area: Rect,
    pub block: Option<BlockView>,
    pub lines: Vec<Vec<Piece>>,
    pub bg: Shade,
    pub clear: bool,
    pub rule: bool,
}

/// The model of a panel.
pub struct PanelV {
    pub area: Rect,
    pub block: Option<BlockV>,
    pub lines: Seq<Seq<PieceV>>,
    pub bg: Shade,
    pub clear: bool,
    pub rule: bool,
}

impl Panel {
    pub open spec fn model(&self) -> PanelV {
        PanelV {
            area: self.area,
            block: match &self.block {
                Some(b) => Some(b.model()),
                None => None,
            },
            lines: lines_model(self.lines@),
            bg: self.bg,
            clear: self.clear,
            rule: self.rule,
        }
    }
}

/// The models of a list of panels.
pub open spec fn panels_model(v: Seq<Panel>) -> Seq<PanelV> {
    Seq::new(v.len(), |i: int| v[i].model())
}

/// Lines inside a bordered block.
pub open spec fn framed(area: Rect, block: BlockV, lines: Seq<Seq<PieceV>>) -> PanelV {
    PanelV { area, block: Some(block), lines, bg: Shade::Reset, clear: false, rule: false }
}

/// A header or footer bar: one line on the bars' background.
pub open spec fn bar(area: Rect, line: Seq<PieceV>) -> PanelV {
    PanelV { area, block: None, lines: seq![line], bg: Shade::Header, clear: false, rule: false }
}

/// Appends a panel.
pub fn push_panel(v: &mut Vec<Panel>, p: Panel)
    ensures
        panels_model(final(v)@) == panels_model(old(v)@).push(p.model()),
{
    v.push(p);
    proof {
        assert(panels_model(v@) =~= panels_model(old(v)@).push(p.model()));
    }
}

fn framed_panel(area: Rect, block: BlockView, lines: Vec<Vec<Piece>>) -> (p: Panel)
    ensures
        p.model() == framed(area, block.model(), lines_model(lines@)),
{
    Panel { area, block: Some(block), lines, bg: Shade::Reset, clear: false, rule: false }
}

fn bar_panel(area: Rect, line: Vec<Piece>) -> (p: Panel)
    ensures
        p.model() == bar(area, line_model(line@)),
{
    let mut lines: Vec<Vec<Piece>> = Vec::new();
    push_line(&mut lines, line);
    proof {
        assert(lines_model(lines@) =~= seq![line_model(line@)]);
    }
    Panel { area, block: None, lines, bg: Shade::Header, clear: false, rule: false }
}

/// Appends the pieces of `more`.
pub fn push_all(line: &mut Vec<Piece>, more: Vec<Piece>)
    ensures
        line_model(final(line)@) == line_model(old(line)@) + line_model(more@),
{
    let ghost m = more@;
    let mut more = more;
    line.append(&mut more);
    proof {
        assert(line@ =~= old(line)@ + m);
        assert(line_model(line@) =~= line_model(old(line)@) + line_model(m));
    }
}

/// Appends one piece.
pub fn push_piece(line: &mut Vec<Piece>, p: Piece)
    ensures
        line_model(final(line)@) == line_model(old(line)@).push(p.model()),
{
    line.push(p);
    proof {
        assert(line_model(line@) =~= line_model(old(line)@).push(p.model()));
    }
}

/// Appends the pieces of a footer pill.
fn push_pill(line: &mut Vec<Piece>, key: &str, desc: &str)
    ensures
        line_model(final(line)@) == line_model(old(line)@) + pill(key@, desc@),
{
    push_all(line, footer_pill(key, desc));
}

fn raw_piece(text: &str) -> (p: Piece)
    ensures
        p.model() == raw(text@),
{
    Piece { text: String::from_str(text), fg: None, bg: Shade::Reset, bold: false }
}

/// The position shown in a footer: `[at/total]`.
pub open spec fn position(at: nat, total: nat) -> Seq<char> {
    "["@ + decimal(at) + "/"@ + decimal(total) + "]"@
}

fn position_text(at: usize, total: usize) -> (s: String)
    ensures
        s@ == position(at as nat, total as nat),
{
    let mut s = String::from_str("[");
    push_decimal(&mut s, at);
    s.append("/");
    push_decimal(&mut s, total);
    s.append("]");
    s
}

fn constraints2(a: Constraint, b: Constraint) -> (v: Vec<Constraint>)
    ensures
        v@ == seq![a, b],
{
    let mut v: Vec<Constraint> = Vec::new();
    v.push(a);
    v.push(b);
    proof {
        assert(v@ =~= seq![a, b]);
    }
    v
}

fn constraints3(a: Constraint, b: Constraint, c: Constraint) -> (v: Vec<Constraint>)
    ensures
        v@ == seq![a, b, c],
{
    let mut v: Vec<Constraint> = Vec::new();
    v.push(a);
    v.push(b);
    v.push(c);
    proof {
        assert(v@ =~= seq![a, b, c]);
    }
    v
}

fn constraints4(a: Constraint, b: Constraint, c: Constraint, d: Constraint) -> (v: Vec<Constraint>)
    ensures
        v@ == seq![a, b, c, d],
{
    let mut v: Vec<Constraint> = Vec::new();
    v.push(a);
    v.push(b);
    v.push(c);
    v.push(d);
    proof {
        assert(v@ =~= seq![a, b, c, d]);
    }
    v
}

// ---------------------------------------------------------------------------
// The pager
// ---------------------------------------------------------------------------

/// The first line the pager shows: the scroll offset, kept on the last line.
pub open spec fn pager_start(len: nat, scroll: usize) -> nat {
    let last: nat = if len > 0 {
        (len - 1) as nat
    } else {
        0
    };
    if scroll < last {
        scroll as nat
    } else {
        last
    }
}

/// Lines of text, each in one color.
pub open spec fn colored(lines: Seq<Seq<char>>, color: Tint) -> Seq<Seq<PieceV>> {
    Seq::new(lines.len(), |i: int| seq![tinted(lines[i], color)])
}

/// The pager's footer: its keys and the position of the first line shown.
pub open spec fn pager_footer(start: nat, total: nat) -> Seq<PieceV> {
    seq![raw(" "@)] + pill("j/k"@, "scroll"@) + pill("g/G"@, "top/bottom"@) + pill("Esc"@, "back"@) + seq![
        tinted(
            position(
                start + 1,
                if total > 0 {
                    total
                } else {
                    1
                },
            ),
            Tint::Comment,
        ),
    ]
}

/// The pager: the value's lines from the scroll offset in a blue block
/// titled with the path, over a footer.
pub open spec fn pager_panels(path: Seq<Seq<char>>, lines: Seq<Seq<char>>, scroll: usize, color: Tint, l: FrameLayout) -> Seq<PanelV> {
    let inner = bordered(l.pager_body);
    let start = pager_start(lines.len(), scroll);
    seq![
        framed(
            l.pager_body,
            BlockV { title: seq![bold(" "@ + join_dots(path) + " "@, Tint::Blue)], border: Tint::Blue, fill: Shade::Reset },
            window(colored(lines, color), start, inner.height as nat),
        ),
        bar(l.pager_footer, pager_footer(start, lines.len())),
    ]
}

fn colored_lines(lines: &Vec<String>, color: Tint) -> (out: Vec<Vec<Piece>>)
    ensures
        lines_model(out@) == colored(texts(lines@), color),
{
    let mut out: Vec<Vec<Piece>> = Vec::new();
    let mut i: usize = 0;
    while i < lines.len()
        invariant
            i <= lines.len(),
            lines_model(out@) == colored(texts(lines@), color).take(i as int),
        decreases lines.len() - i,
    {
        let mut l: Vec<Piece> = Vec::new();
        push_piece(&mut l, Piece { text: copy_string(&lines[i]), fg: Some(color), bg: Shade::Reset, bold: false });
        let ghost before = lines_model(out@);
        proof {
            assert(line_model(l@) =~= seq![tinted(texts(lines@)[i as int], color)]);
        }
        push_line(&mut out, l);
        i += 1;
        proof {
            assert(lines_model(out@) =~= colored(texts(lines@), color).take(i as int));
        }
    }
    proof {
        assert(colored(texts(lines@), color).take(i as int) =~= colored(texts(lines@), color));
    }
    out
}

/// What the pager draws.
pub fn pager_frame(path: &Vec<String>, lines: &Vec<String>, scroll: usize, color: Tint, l: FrameLayout) -> (panels: Vec<Panel>)
    ensures
        panels_model(panels@) == pager_panels(texts(path@), texts(lines@), scroll, color, l),
{
    let inner = bordered_inner(l.pager_body);
    let total = lines.len();
    let last = if total > 0 {
        total - 1
    } else {
        0
    };
    let start = if scroll < last {
        scroll
    } else {
        last
    };
    let content = window_of(colored_lines(lines, color), start, inner.height as usize);
    let mut title_text = String::from_str(" ");
    let joined = join_path(path);
    title_text.append(joined.as_str());
    title_text.append(" ");
    let mut title: Vec<Piece> = Vec::new();
    push_piece(&mut title, Piece { text: title_text, fg: Some(Tint::Blue), bg: Shade::Reset, bold: true });
    let block = BlockView { title, border: Tint::Blue, fill: Shade::Reset };
    let mut footer: Vec<Piece> = Vec::new();
    push_piece(&mut footer, raw_piece(" "));
    push_pill(&mut footer, "j/k", "scroll");
    push_pill(&mut footer, "g/G", "top/bottom");
    push_pill(&mut footer, "Esc", "back");
    let shown_total = if total > 0 {
        total
    } else {
        1
    };
    push_piece(
        &mut footer,
        Piece { text: position_text(start + 1, shown_total), fg: Some(Tint::Comment), bg: Shade::Reset, bold: false },
    );
    let ghost fm = line_model(footer@);
    proof {
        assert(fm =~= pager_footer(start as nat, total as nat));
        assert(block.model().title =~= seq![bold(" "@ + join_dots(texts(path@)) + " "@, Tint::Blue)]);
    }
    let mut panels: Vec<Panel> = Vec::new();
    push_panel(&mut panels, framed_panel(l.pager_body, block, content));
    push_panel(&mut panels, bar_panel(l.pager_footer, footer));
    proof {
        assert(panels_model(panels@) =~= pager_panels(texts(path@), texts(lines@), scroll, color, l));
    }
    panels
}

// ---------------------------------------------------------------------------
// Panes shared by the layouts
// ---------------------------------------------------------------------------

/// The paths a table lists under `key`; none where it has no entry.
pub open spec fn listed(t: Seq<(Seq<char>, Seq<Seq<char>>)>, key: Seq<char>) -> Seq<Seq<char>> {
    match table_get(t, key) {
        Some(l) => l,
        None => seq![],
    }
}

fn listed_items(r: Option<&Vec<String>>) -> (items: Vec<String>)
    ensures
        texts(items@) == match r {
            Some(l) => texts(l@),
            None => seq![],
        },
{
    match r {
        Some(l) => copy_strings(l),
        None => {
            let v: Vec<String> = Vec::new();
            proof {
                assert(texts(v@) =~= seq![]);
            }
            v
        },
    }
}

/// A dependency pane: its title with the count, and the rows from `scroll`.
pub open spec fn dep_panel(
    title: Seq<char>,
    key: char,
    items: Seq<Seq<char>>,
    cursor: Option<usize>,
    scroll: usize,
    area: Rect,
    active: bool,
    lv: Seq<(Seq<char>, Node)>,
) -> PanelV {
    let inner = bordered(area);
    framed(
        area,
        keyed_block(title, Some(items.len() as usize), key, active),
        dep_list(items, cursor, scroll as nat, inner.height as nat, inner.width, lv, None),
    )
}

/// A dependency pane can be drawn.
pub open spec fn dep_panel_ok(items: Seq<Seq<char>>, scroll: usize, area: Rect, lv: Seq<(Seq<char>, Node)>) -> bool {
    let inner = bordered(area);
    dep_list_ok(items, scroll as nat, inner.height as nat, inner.width, lv)
}

fn dep_panel_exec(
    title: &str,
    key: char,
    items: &Vec<String>,
    cursor: Option<usize>,
    scroll: usize,
    area: Rect,
    active: bool,
    root_children: &Vec<(String, ConfigNode)>,
) -> (r: Option<Panel>)
    requires
        room(scroll),
    ensures
        match r {
            Some(p) => dep_panel_ok(texts(items@), scroll, area, level(root_children@)) && p.model() == dep_panel(
                title@,
                key,
                texts(items@),
                cursor,
                scroll,
                area,
                active,
                level(root_children@),
            ),
            None => !dep_panel_ok(texts(items@), scroll, area, level(root_children@)),
        },
{
    let inner = bordered_inner(area);
    let h = inner.height as usize;
    if !dep_list_fits(items, scroll, h, inner.width, root_children) {
        return None;
    }
    let lines = render_dep_list(items, cursor, scroll, h, inner.width, root_children, None);
    let block = make_block_keyed(title, Some(items.len()), key, active);
    proof {
        assert(texts(items@).len() == items@.len());
    }
    Some(framed_panel(area, block, lines))
}

/// The detail pane: the selected node's path and value from `scroll`, or
/// blank lines when nothing is selected.
pub open spec fn detail_panel(sel: Option<(Seq<Seq<char>>, Node)>, scroll: usize, area: Rect, active: bool) -> PanelV {
    let inner = bordered(area);
    framed(
        area,
        keyed_block("Detail"@, None, 'd', active),
        match sel {
            Some(s) => window(detail_content(s.0, s.1, inner.width), scroll as nat, inner.height as nat),
            None => blanks(inner.height as nat),
        },
    )
}

/// The detail pane can be drawn: a selected leaf's value can be written out.
pub open spec fn detail_panel_ok(sel: Option<(Seq<Seq<char>>, Node)>) -> bool {
    sel matches Some(s) ==> (s.1 matches Node::Leaf(v) ==> full_ok(v))
}

/// The model of a selection.
pub open spec fn selection(path: &Vec<String>, node: Option<&ConfigNode>) -> Option<(Seq<Seq<char>>, Node)> {
    match node {
        Some(n) => Some((texts(path@), n.model())),
        None => None,
    }
}

fn blank_lines(n: usize) -> (out: Vec<Vec<Piece>>)
    ensures
        lines_model(out@) == blanks(n as nat),
{
    let mut out: Vec<Vec<Piece>> = Vec::new();
    pad_blank(&mut out, n);
    proof {
        assert(lines_model(out@) =~= blanks(n as nat));
    }
    out
}

fn detail_panel_exec(path: &Vec<String>, node: Option<&ConfigNode>, scroll: usize, area: Rect, active: bool) -> (r: Option<Panel>)
    ensures
        match r {
            Some(p) => detail_panel_ok(selection(path, node)) && p.model() == detail_panel(
                selection(path, node),
                scroll,
                area,
                active,
            ),
            None => !detail_panel_ok(selection(path, node)),
        },
{
    let inner = bordered_inner(area);
    let h = inner.height as usize;
    let lines = match node {
        Some(n) => {
            match n {
                ConfigNode::Leaf(v) => {
                    if !full_fits(v) {
                        return None;
                    }
                },
                _ => {},
            }
            render_detail_info(path, n, scroll, inner.width, h)
        },
        None => blank_lines(h),
    };
    let block = make_block_keyed("Detail", None, 'd', active);
    Some(framed_panel(area, block, lines))
}

// ---------------------------------------------------------------------------
// The search layout
// ---------------------------------------------------------------------------

/// The areas of the search layout.
#[derive(PartialEq, Eq, Structural, Clone, Copy, Debug)]
pub struct SearchRects {
    pub header: Rect,
    pub results: Rect,
    pub detail: Rect,
    pub deps: Rect,
    pub revs: Rect,
    pub bar: Rect,
    pub footer: Rect,
}

/// The rows of the search layout: a header, the body, the search bar and a
/// footer.
pub open spec fn search_rows() -> Seq<Constraint> {
    seq![Constraint::Length(1), Constraint::Min(1), Constraint::Length(3), Constraint::Length(1)]
}

/// The columns of the search body: the results, then the side panes.
pub open spec fn search_columns() -> Seq<Constraint> {
    seq![Constraint::Percentage(60), Constraint::Min(0)]
}

/// The side panes of the search body: detail, dependencies, dependents.
pub open spec fn search_side() -> Seq<Constraint> {
    seq![Constraint::Percentage(40), Constraint::Percentage(30), Constraint::Min(0)]
}

/// The search layout of `screen`: a header; the results beside the detail,
/// dependency and dependent panes; the search bar; a footer. Each area is a
/// part of a split of `screen` along `search_rows`, of its body along
/// `search_columns` and of the side along `search_side`.
pub open spec fn search_rects_ok(screen: Rect, r: SearchRects) -> bool {
    exists|outer: Seq<Rect>, body: Seq<Rect>, right: Seq<Rect>|
        #![trigger split_ok(screen, true, search_rows(), outer), split_ok(outer[1], false, search_columns(), body), split_ok(body[1], true, search_side(), right)]
        {
            &&& split_ok(screen, true, search_rows(), outer)
            &&& split_ok(outer[1], false, search_columns(), body)
            &&& split_ok(body[1], true, search_side(), right)
            &&& r == SearchRects {
                header: outer[0],
                results: body[0],
                detail: right[0],
                deps: right[1],
                revs: right[2],
                bar: outer[2],
                footer: outer[3],
            }
        }
}

/// Every pane of the search layout ends within a `u16`.
pub open spec fn search_rects_fit(r: SearchRects) -> bool {
    r.results.fits() && r.detail.fits() && r.deps.fits() && r.revs.fits()
}

fn search_layout(screen: Rect) -> (r: SearchRects)
    ensures
        search_rects_ok(screen, r),
        screen.fits() ==> search_rects_fit(r),
{
    let outer = split_area(
        screen,
        true,
        constraints4(Constraint::Length(1), Constraint::Min(1), Constraint::Length(3), Constraint::Length(1)),
    );
    let body = split_area(outer[1], false, constraints2(Constraint::Percentage(60), Constraint::Min(0)));
    let right = split_area(
        body[1],
        true,
        constraints3(Constraint::Percentage(40), Constraint::Percentage(30), Constraint::Min(0)),
    );
    let r = SearchRects {
        header: outer[0],
        results: body[0],
        detail: right[0],
        deps: right[1],
        revs: right[2],
        bar: outer[2],
        footer: outer[3],
    };
    proof {
        assert(split_ok(screen, true, search_rows(), outer@) && split_ok(outer@[1], false, search_columns(), body@)
            && split_ok(body@[1], true, search_side(), right@));
    }
    r
}

/// The cursor and scroll offset of the results after clamping them to the
/// results pane.
pub open spec fn result_window(total: nat, cursor: usize, scroll: usize, r: SearchRects) -> (int, int) {
    clamped(cursor as int, scroll as int, total as int, bordered(r.results).height as int)
}

/// The result under the cursor and its node, where the path leads to one.
pub open spec fn search_selection(results: Seq<Seq<Seq<char>>>, cu: int, lv: Seq<(Seq<char>, Node)>) -> Option<(Seq<Seq<char>>, Node)> {
    if 0 <= cu < results.len() {
        match lookup(lv, results[cu]) {
            Some(n) => Some((results[cu], n)),
            None => None,
        }
    } else {
        None
    }
}

/// The rows of the results pane from `sc`, then blank lines.
pub open spec fn result_rows(
    query: Seq<char>,
    results: Seq<Seq<Seq<char>>>,
    cu: int,
    sc: int,
    h: nat,
    lv: Seq<(Seq<char>, Node)>,
) -> Seq<Seq<PieceV>> {
    let end = if sc + h <= results.len() {
        sc + h
    } else {
        results.len() as int
    };
    let n: nat = if sc <= end {
        (end - sc) as nat
    } else {
        0
    };
    Seq::new(n, |i: int| search_line(results[sc + i], query, sc + i == cu, lookup(lv, results[sc + i]), None)) + blanks(
        (h - n) as nat,
    )
}

/// Every row that the results pane shows can be made.
pub open spec fn result_rows_ok(query: Seq<char>, results: Seq<Seq<Seq<char>>>, sc: int, h: nat) -> bool {
    forall|i: int| sc <= i < sc + h && i < results.len() ==> search_line_ok(#[trigger] results[i], query)
}

/// The dependency pane's cursor and scroll offset: clamped when it has the
/// focus, none and 0 otherwise.
pub open spec fn side_cursor(active: bool, cursor: usize, scroll: usize, count: nat, area: Rect) -> (Option<usize>, usize) {
    if active {
        let c = clamped(cursor as int, scroll as int, count as int, bordered(area).height as int);
        (Some(c.0 as usize), c.1 as usize)
    } else {
        (None, 0)
    }
}

/// The search bar: the query, with a block cursor while it has the focus.
pub open spec fn search_bar(query: Seq<char>, active: bool) -> Seq<PieceV> {
    seq![
        PieceV { text: query, fg: Some(Tint::Fg), bg: Shade::Reset, bold: false },
        if active {
            PieceV { text: "\u{2588}"@, fg: Some(Tint::Blue), bg: Shade::Reset, bold: false }
        } else {
            raw(""@)
        },
    ]
}

/// The footer of the search layout: the keys of the focused side and the
/// position of the cursor among the results.
pub open spec fn search_footer(focus: Focus, cu: int, total: nat) -> Seq<PieceV> {
    seq![raw(" "@)] + (if focus == Focus::Middle {
        pill("\u{2191}\u{2193}"@, "select"@) + pill("Enter"@, "jump"@) + pill("Tab"@, "panes"@) + pill("Esc"@, "close"@)
    } else {
        pill("d/p/n"@, "switch pane"@) + pill("j/k"@, "scroll"@) + (if focus == Focus::Deps || focus == Focus::Revs {
            pill("Enter"@, "jump"@)
        } else {
            seq![]
        }) + pill("Esc"@, "results"@)
    }) + seq![
        tinted(
            if total > 0 {
                position((cu + 1) as nat, total)
            } else {
                "[0/0]"@
            },
            Tint::Comment,
        ),
    ]
}

/// A counter that stays within `room` when one is added to it.
pub open spec fn short_of_room(x: usize) -> bool {
    x < usize::MAX - 65536
}

/// What the search layout shows, whether it can be drawn (the result under
/// the cursor is a path of at least one segment and every row can be made),
/// and the areas it records for the mouse.
pub open spec fn search_view(
    query: Seq<char>,
    results: Seq<Seq<Seq<char>>>,
    cursor: usize,
    scroll: usize,
    focus: Focus,
    detail_scroll: usize,
    deps_cursor: usize,
    deps_scroll: usize,
    lv: Seq<(Seq<char>, Node)>,
    deps: DepsIndex,
    r: SearchRects,
    areas: PaneAreas,
) -> (Seq<PanelV>, bool, PaneAreas) {
    let total = results.len();
    let w = result_window(total, cursor, scroll, r);
    let cu = w.0;
    let sc = w.1;
    let rin = bordered(r.results);
    let sel = search_selection(results, cu, lv);
    let key = match sel {
        Some(s) => join_dots(s.0),
        None => seq![],
    };
    let dep_items = listed(table_model(deps.dependencies@), key);
    let rev_items = listed(table_model(deps.dependents@), key);
    let dcur = side_cursor(focus == Focus::Deps, deps_cursor, deps_scroll, dep_items.len(), r.deps);
    let rcur = side_cursor(focus == Focus::Revs, deps_cursor, deps_scroll, rev_items.len(), r.revs);
    let panels = seq![
        bar(r.header, seq![bold(" Search "@, Tint::Fg), tinted(" "@ + decimal(total) + " results"@, Tint::Comment)]),
        framed(r.results, plain_block("Results"@, focus == Focus::Middle), result_rows(query, results, cu, sc, rin.height as nat, lv)),
        detail_panel(sel, detail_scroll, r.detail, focus == Focus::Detail),
        dep_panel("Dependencies"@, 'p', dep_items, dcur.0, dcur.1, r.deps, focus == Focus::Deps, lv),
        dep_panel("Dependents"@, 'n', rev_items, rcur.0, rcur.1, r.revs, focus == Focus::Revs, lv),
        framed(r.bar, plain_block("Search"@, focus == Focus::Middle), seq![search_bar(query, focus == Focus::Middle)]),
        bar(r.footer, search_footer(focus, cu, total)),
    ];
    let ok = (0 <= cu < results.len() ==> results[cu].len() > 0) && result_rows_ok(query, results, sc, rin.height as nat)
        && detail_panel_ok(sel) && dep_panel_ok(
        dep_items,
        dcur.1,
        r.deps,
        lv,
    ) && dep_panel_ok(rev_items, rcur.1, r.revs, lv);
    let new_areas = PaneAreas {
        search_results_inner: rin,
        search_results_scroll: sc as usize,
        search_results_count: total as usize,
        search_detail_inner: bordered(r.detail),
        search_deps_inner: bordered(r.deps),
        search_revs_inner: bordered(r.revs),
        search_deps_count: dep_items.len() as usize,
        search_revs_count: rev_items.len() as usize,
        search_deps_scroll: deps_scroll,
        ..areas
    };
    (panels, ok, new_areas)
}

proof fn lemma_clamped_bound(cursor: int, scroll: int, total: int, visible: int)
    requires
        0 <= total,
        0 <= cursor,
        0 <= scroll,
        0 <= visible,
    ensures
        0 <= clamped(cursor, scroll, total, visible).1 <= if scroll < cursor + 1 {
            cursor + 1
        } else {
            scroll
        },
        0 <= clamped(cursor, scroll, total, visible).0 <= cursor,
        total > 0 ==> clamped(cursor, scroll, total, visible).0 < total,
{
}

fn side_cursor_exec(active: bool, cursor: usize, scroll: usize, count: usize, area: Rect) -> (r: (Option<usize>, usize))
    requires
        short_of_room(cursor),
        short_of_room(scroll),
    ensures
        r == side_cursor(active, cursor, scroll, count as nat, area),
        room(r.1),
{
    if active {
        let mut c = cursor;
        let mut s = scroll;
        let h = bordered_inner(area).height as usize;
        proof {
            lemma_clamped_bound(cursor as int, scroll as int, count as int, h as int);
        }
        clamp_cursor(&mut c, &mut s, count, h);
        (Some(c), s)
    } else {
        (None, 0)
    }
}

fn push_key_text(out: &mut String, n: usize, label: &str)
    ensures
        final(out)@ == old(out)@ + decimal(n as nat) + label@,
{
    push_decimal(out, n);
    out.append(label);
}

fn result_rows_exec(
    query: &String,
    results: &Vec<Vec<String>>,
    cu: usize,
    sc: usize,
    rin: Rect,
    root_children: &Vec<(String, ConfigNode)>,
) -> (r: Option<Vec<Vec<Piece>>>)
    requires
        room(sc),
    ensures
        match r {
            Some(rows) => result_rows_ok(query@, paths_model(results@), sc as int, rin.height as nat) && lines_model(rows@)
                == result_rows(query@, paths_model(results@), cu as int, sc as int, rin.height as nat, level(root_children@)),
            None => !result_rows_ok(query@, paths_model(results@), sc as int, rin.height as nat),
        },
{
    let ghost rs = paths_model(results@);
    let ghost lv = level(root_children@);
    let rh = rin.height as usize;
    let total = results.len();
    let end = if sc + rh <= total {
        sc + rh
    } else {
        total
    };
    let mut rows: Vec<Vec<Piece>> = Vec::new();
    let mut i = sc;
    while i < end
        invariant
            end == (if sc + rh <= total {
                sc + rh
            } else {
                total as int
            }),
            sc <= i,
            i <= end || (end < sc && i == sc),
            rh == rin.height,
            total == results@.len(),
            rs == paths_model(results@),
            lv == level(root_children@),
            lines_model(rows@) == Seq::new(
                (i - sc) as nat,
                |k: int| search_line(rs[sc + k], query@, sc + k == cu, lookup(lv, rs[sc + k]), None),
            ),
            forall|k: int| sc <= k < i ==> search_line_ok(#[trigger] rs[k], query@),
        decreases end - i,
    {
        let node = lookup_node(root_children, &results[i]);
        proof {
            assert(rs[i as int] == texts(results@[i as int]@));
        }
        if !search_line_fits(&results[i], query) {
            return None;
        }
        let line = render_search_result_line(&results[i], query, i == cu, rin.width, node, None);
        push_line(&mut rows, line);
        i += 1;
        proof {
            assert(lines_model(rows@) =~= Seq::new(
                (i - sc) as nat,
                |k: int| search_line(rs[sc + k], query@, sc + k == cu, lookup(lv, rs[sc + k]), None),
            ));
        }
    }
    pad_blank(&mut rows, rh);
    proof {
        assert(lines_model(rows@) =~= result_rows(query@, rs, cu as int, sc as int, rh as nat, lv));
    }
    Some(rows)
}

fn search_header(total: usize) -> (l: Vec<Piece>)
    ensures
        line_model(l@) == seq![bold(" Search "@, Tint::Fg), tinted(" "@ + decimal(total as nat) + " results"@, Tint::Comment)],
{
    let mut header: Vec<Piece> = Vec::new();
    push_piece(&mut header, Piece { text: String::from_str(" Search "), fg: Some(Tint::Fg), bg: Shade::Reset, bold: true });
    let mut count_text = String::from_str(" ");
    push_key_text(&mut count_text, total, " results");
    push_piece(&mut header, Piece { text: count_text, fg: Some(Tint::Comment), bg: Shade::Reset, bold: false });
    proof {
        assert(line_model(header@) =~= seq![
            bold(" Search "@, Tint::Fg),
            tinted(" "@ + decimal(total as nat) + " results"@, Tint::Comment),
        ]);
    }
    header
}

fn search_bar_lines(query: &String, searching: bool) -> (lines: Vec<Vec<Piece>>)
    ensures
        lines_model(lines@) == seq![search_bar(query@, searching)],
{
    let mut bar_line: Vec<Piece> = Vec::new();
    push_piece(&mut bar_line, Piece { text: copy_string(query), fg: Some(Tint::Fg), bg: Shade::Reset, bold: false });
    if searching {
        push_piece(&mut bar_line, Piece { text: String::from_str("\u{2588}"), fg: Some(Tint::Blue), bg: Shade::Reset, bold: false });
    } else {
        push_piece(&mut bar_line, raw_piece(""));
    }
    proof {
        assert(line_model(bar_line@) =~= search_bar(query@, searching));
    }
    let mut bar_lines: Vec<Vec<Piece>> = Vec::new();
    push_line(&mut bar_lines, bar_line);
    proof {
        assert(lines_model(bar_lines@) =~= seq![search_bar(query@, searching)]);
    }
    bar_lines
}

fn search_footer_line(focus: Focus, cu: usize, total: usize) -> (l: Vec<Piece>)
    requires
        total > 0 ==> cu < total,
    ensures
        line_model(l@) == search_footer(focus, cu as int, total as nat),
{
    let mut footer: Vec<Piece> = Vec::new();
    push_piece(&mut footer, raw_piece(" "));
    if focus == Focus::Middle {
        push_pill(&mut footer, "\u{2191}\u{2193}", "select");
        push_pill(&mut footer, "Enter", "jump");
        push_pill(&mut footer, "Tab", "panes");
        push_pill(&mut footer, "Esc", "close");
    } else {
        push_pill(&mut footer, "d/p/n", "switch pane");
        push_pill(&mut footer, "j/k", "scroll");
        if focus == Focus::Deps || focus == Focus::Revs {
            push_pill(&mut footer, "Enter", "jump");
        }
        push_pill(&mut footer, "Esc", "results");
    }
    let pos_text = if total > 0 {
        position_text(cu + 1, total)
    } else {
        String::from_str("[0/0]")
    };
    push_piece(&mut footer, Piece { text: pos_text, fg: Some(Tint::Comment), bg: Shade::Reset, bold: false });
    proof {
        assert(line_model(footer@) =~= search_footer(focus, cu as int, total as nat));
    }
    footer
}

/// What the search layout draws, or none where it cannot be drawn; the
/// areas it records for the mouse are set either way.
#[verifier::rlimit(60)]
pub fn search_frame(
    query: &String,
    results: &Vec<Vec<String>>,
    cursor: usize,
    scroll: usize,
    focus: Focus,
    detail_scroll: usize,
    deps_cursor: usize,
    deps_scroll: usize,
    root_children: &Vec<(String, ConfigNode)>,
    deps_index: &DepsIndex,
    rects: SearchRects,
    pane_areas: &mut PaneAreas,
) -> (r: Option<Vec<Panel>>)
    requires
        short_of_room(cursor),
        short_of_room(scroll),
        short_of_room(deps_cursor),
        short_of_room(deps_scroll),
    ensures
        ({
            let v = search_view(
                query@,
                paths_model(results@),
                cursor,
                scroll,
                focus,
                detail_scroll,
                deps_cursor,
                deps_scroll,
                level(root_children@),
                *deps_index,
                rects,
                *old(pane_areas),
            );
            &&& *final(pane_areas) == v.2
            &&& match r {
                Some(p) => v.1 && panels_model(p@) == v.0,
                None => !v.1,
            }
        }),
        search_rects_fit(rects) ==> {
            &&& final(pane_areas).search_results_inner.fits()
            &&& final(pane_areas).search_detail_inner.fits()
            &&& final(pane_areas).search_deps_inner.fits()
            &&& final(pane_areas).search_revs_inner.fits()
        },
        room(final(pane_areas).search_results_scroll),
        room(final(pane_areas).search_deps_scroll),
{
    let ghost rs = paths_model(results@);
    let ghost lv = level(root_children@);
    let ghost v = search_view(
        query@,
        rs,
        cursor,
        scroll,
        focus,
        detail_scroll,
        deps_cursor,
        deps_scroll,
        lv,
        *deps_index,
        rects,
        *old(pane_areas),
    );
    let r = rects;
    let total = results.len();
    let rin = bordered_inner(r.results);
    let rh = rin.height as usize;
    let mut cu = cursor;
    let mut sc = scroll;
    proof {
        lemma_clamped_bound(cursor as int, scroll as int, total as int, rh as int);
    }
    clamp_cursor(&mut cu, &mut sc, total, rh);
    let sel_node: Option<&ConfigNode> = if cu < total {
        lookup_node(root_children, &results[cu])
    } else {
        None
    };
    let empty: Vec<String> = Vec::new();
    let sel_path: &Vec<String> = if cu < total && sel_node.is_some() {
        &results[cu]
    } else {
        &empty
    };
    proof {
        assert(selection(sel_path, sel_node) == search_selection(rs, cu as int, lv));
    }
    let key = match sel_node {
        Some(_) => join_path(sel_path),
        None => String::new(),
    };
    let dep_items = listed_items(deps_index.dependencies_of(&key));
    let rev_items = listed_items(deps_index.dependents_of(&key));
    pane_areas.search_results_inner = rin;
    pane_areas.search_results_scroll = sc;
    pane_areas.search_results_count = total;
    pane_areas.search_detail_inner = bordered_inner(r.detail);
    pane_areas.search_deps_inner = bordered_inner(r.deps);
    pane_areas.search_revs_inner = bordered_inner(r.revs);
    pane_areas.search_deps_count = dep_items.len();
    pane_areas.search_revs_count = rev_items.len();
    pane_areas.search_deps_scroll = deps_scroll;
    proof {
        assert(texts(dep_items@).len() == dep_items@.len());
        assert(texts(rev_items@).len() == rev_items@.len());
        assert(*pane_areas == v.2);
    }
    let dcur = side_cursor_exec(focus == Focus::Deps, deps_cursor, deps_scroll, dep_items.len(), r.deps);
    let rcur = side_cursor_exec(focus == Focus::Revs, deps_cursor, deps_scroll, rev_items.len(), r.revs);
    if cu < total && results[cu].len() == 0 {
        proof {
            assert(rs[cu as int] == texts(results@[cu as int]@));
        }
        return None;
    }
    let rows = match result_rows_exec(query, results, cu, sc, rin, root_children) {
        Some(rows) => rows,
        None => {
            return None;
        },
    };
    let detail = match detail_panel_exec(sel_path, sel_node, detail_scroll, r.detail, focus == Focus::Detail) {
        Some(p) => p,
        None => {
            return None;
        },
    };
    let deps_panel = match dep_panel_exec("Dependencies", 'p', &dep_items, dcur.0, dcur.1, r.deps, focus == Focus::Deps, root_children) {
        Some(p) => p,
        None => {
            return None;
        },
    };
    let revs_panel = match dep_panel_exec("Dependents", 'n', &rev_items, rcur.0, rcur.1, r.revs, focus == Focus::Revs, root_children) {
        Some(p) => p,
        None => {
            return None;
        },
    };
    let searching = focus == Focus::Middle;
    let header = search_header(total);
    let bar_lines = search_bar_lines(query, searching);
    let footer = search_footer_line(focus, cu, total);
    let mut panels: Vec<Panel> = Vec::new();
    push_panel(&mut panels, bar_panel(r.header, header));
    push_panel(&mut panels, framed_panel(r.results, make_block("Results", searching), rows));
    push_panel(&mut panels, detail);
    push_panel(&mut panels, deps_panel);
    push_panel(&mut panels, revs_panel);
    push_panel(&mut panels, framed_panel(r.bar, make_block("Search", searching), bar_lines));
    push_panel(&mut panels, bar_panel(r.footer, footer));
    proof {
        assert(panels_model(panels@) =~= v.0);
    }
    Some(panels)
}

// ---------------------------------------------------------------------------
// The help overlay
// ---------------------------------------------------------------------------

/// The keys the help overlay lists, under their section titles (entries
/// without a description), with empty entries between the sections.
pub open spec fn help_table() -> Seq<(Seq<char>, Seq<char>)> {
    seq![
        ("Navigation"@, ""@),
        ("j / \u{2193}"@, "Move cursor down"@),
        ("k / \u{2191}"@, "Move cursor up"@),
        ("l / \u{2192} / Enter"@, "Drill into branch / view leaf"@),
        ("h / \u{2190} / Esc"@, "Go back one level"@),
        ("g / Home"@, "Jump to top"@),
        ("G / End"@, "Jump to bottom"@),
        ("PageDown / PageUp"@, "Page scroll"@),
        (""@, ""@),
        ("Info Panes"@, ""@),
        ("Tab"@, "Cycle through panes"@),
        ("b"@, "Focus Browse pane"@),
        ("d"@, "Focus Detail pane"@),
        ("p"@, "Focus Dependencies pane"@),
        ("n"@, "Focus Dependents pane"@),
        ("J / K"@, "Quick-scroll detail"@),
        ("j / k (in pane)"@, "Navigate / scroll"@),
        ("Enter (in deps/revs)"@, "Jump to dependency"@),
        ("Esc / h (in pane)"@, "Return to browse"@),
        (""@, ""@),
        ("Value Pager"@, ""@),
        ("Enter / \u{2192} on leaf"@, "Open fullscreen pager"@),
        ("j / k / \u{2191}\u{2193}"@, "Scroll value"@),
        ("Esc / h / \u{2190}"@, "Close pager"@),
        (""@, ""@),
        ("Search"@, ""@),
        ("/"@, "Open search"@),
        ("\u{2191}\u{2193} (in search)"@, "Navigate results while typing"@),
        ("Enter (in search)"@, "Jump to selected result"@),
        ("Esc (in search)"@, "Close search"@),
        ("PageDown/Up (in search)"@, "Page through results"@),
        (""@, ""@),
        ("General"@, ""@),
        ("?"@, "Toggle this help"@),
        ("q / Ctrl-C"@, "Quit"@),
    ]
}

fn entry(key: &str, desc: &str) -> (e: (String, String))
    ensures
        e.0@ == key@,
        e.1@ == desc@,
{
    (String::from_str(key), String::from_str(desc))
}

/// The models of a list of pairs of strings.
pub open spec fn pairs(v: Seq<(String, String)>) -> Seq<(Seq<char>, Seq<char>)> {
    Seq::new(v.len(), |i: int| (v[i].0@, v[i].1@))
}

fn help_entries() -> (v: Vec<(String, String)>)
    ensures
        pairs(v@) == help_table(),
{
    let v: Vec<(String, String)> = vec![
        entry("Navigation", ""),
        entry("j / \u{2193}", "Move cursor down"),
        entry("k / \u{2191}", "Move cursor up"),
        entry("l / \u{2192} / Enter", "Drill into branch / view leaf"),
        entry("h / \u{2190} / Esc", "Go back one level"),
        entry("g / Home", "Jump to top"),
        entry("G / End", "Jump to bottom"),
        entry("PageDown / PageUp", "Page scroll"),
        entry("", ""),
        entry("Info Panes", ""),
        entry("Tab", "Cycle through panes"),
        entry("b", "Focus Browse pane"),
        entry("d", "Focus Detail pane"),
        entry("p", "Focus Dependencies pane"),
        entry("n", "Focus Dependents pane"),
        entry("J / K", "Quick-scroll detail"),
        entry("j / k (in pane)", "Navigate / scroll"),
        entry("Enter (in deps/revs)", "Jump to dependency"),
        entry("Esc / h (in pane)", "Return to browse"),
        entry("", ""),
        entry("Value Pager", ""),
        entry("Enter / \u{2192} on leaf", "Open fullscreen pager"),
        entry("j / k / \u{2191}\u{2193}", "Scroll value"),
        entry("Esc / h / \u{2190}", "Close pager"),
        entry("", ""),
        entry("Search", ""),
        entry("/", "Open search"),
        entry("\u{2191}\u{2193} (in search)", "Navigate results while typing"),
        entry("Enter (in search)", "Jump to selected result"),
        entry("Esc (in search)", "Close search"),
        entry("PageDown/Up (in search)", "Page through results"),
        entry("", ""),
        entry("General", ""),
        entry("?", "Toggle this help"),
        entry("q / Ctrl-C", "Quit"),
    ];
    proof {
        assert(pairs(v@) =~= help_table());
    }
    v
}

/// A line of the help: nothing for an empty entry, a bold blue title for an
/// entry without a description, else the key in bold padded to 28
/// characters and the description in gray.
pub open spec fn help_line(key: Seq<char>, desc: Seq<char>) -> Seq<PieceV> {
    if key.len() == 0 && desc.len() == 0 {
        seq![]
    } else if desc.len() == 0 {
        seq![bold(" "@ + key, Tint::Blue)]
    } else {
        seq![
            bold(
                "  "@ + key + repeated(
                    ' ',
                    if key.len() < 28 {
                        (28 - key.len()) as nat
                    } else {
                        0
                    },
                ),
                Tint::Fg,
            ),
            tinted(desc, Tint::Comment),
        ]
    }
}

/// The lines of the help overlay.
pub open spec fn help_lines() -> Seq<Seq<PieceV>> {
    Seq::new(help_table().len(), |i: int| help_line(help_table()[i].0, help_table()[i].1)) + seq![
        seq![],
        seq![tinted("  Press ? or Esc to close"@, Tint::Comment)],
    ]
}

/// The help overlay: a cleared box over `area`, the middle of the screen.
pub open spec fn help_panel(area: Rect) -> PanelV {
    PanelV {
        area,
        block: Some(BlockV { title: seq![bold(" Keyboard Shortcuts "@, Tint::Blue)], border: Tint::Blue, fill: Shade::HelpFill }),
        lines: help_lines(),
        bg: Shade::Reset,
        clear: true,
        rule: false,
    }
}

fn pad_to(s: &mut String, width: usize)
    ensures
        final(s)@ == old(s)@ + repeated(
            ' ',
            if old(s)@.len() < width {
                (width - old(s)@.len()) as nat
            } else {
                0
            },
        ),
{
    let n = chars_of(s.as_str()).len();
    let mut k = n;
    while k < width
        invariant
            n == old(s)@.len(),
            n <= k <= width || (k == n && n >= width),
            s@ == old(s)@ + repeated(' ', (k - n) as nat),
        decreases width - k,
    {
        push_char(s, ' ');
        k += 1;
        proof {
            assert(s@ =~= old(s)@ + repeated(' ', (k - n) as nat));
        }
    }
    proof {
        if n >= width {
            assert(s@ =~= old(s)@ + repeated(' ', 0));
        }
    }
}

fn help_line_exec(key: &String, desc: &String) -> (l: Vec<Piece>)
    ensures
        line_model(l@) == help_line(key@, desc@),
{
    let kl = chars_of(key.as_str()).len();
    let dl = chars_of(desc.as_str()).len();
    let mut l: Vec<Piece> = Vec::new();
    if kl == 0 && dl == 0 {
    } else if dl == 0 {
        let mut t = String::from_str(" ");
        t.append(key.as_str());
        push_piece(&mut l, Piece { text: t, fg: Some(Tint::Blue), bg: Shade::Reset, bold: true });
    } else {
        let mut k = copy_string(key);
        pad_to(&mut k, 28);
        let mut t = String::from_str("  ");
        t.append(k.as_str());
        proof {
            assert(t@ =~= "  "@ + key@ + repeated(
                ' ',
                if key@.len() < 28 {
                    (28 - key@.len()) as nat
                } else {
                    0
                },
            ));
        }
        push_piece(&mut l, Piece { text: t, fg: Some(Tint::Fg), bg: Shade::Reset, bold: true });
        push_piece(&mut l, Piece { text: copy_string(desc), fg: Some(Tint::Comment), bg: Shade::Reset, bold: false });
    }
    proof {
        assert(line_model(l@) =~= help_line(key@, desc@));
    }
    l
}

fn help_panel_exec(area: Rect) -> (p: Panel)
    ensures
        p.model() == help_panel(area),
{
    let entries = help_entries();
    let mut lines: Vec<Vec<Piece>> = Vec::new();
    let mut i: usize = 0;
    while i < entries.len()
        invariant
            i <= entries.len(),
            pairs(entries@) == help_table(),
            lines_model(lines@) == Seq::new(i as nat, |k: int| help_line(help_table()[k].0, help_table()[k].1)),
        decreases entries.len() - i,
    {
        let l = help_line_exec(&entries[i].0, &entries[i].1);
        push_line(&mut lines, l);
        i += 1;
        proof {
            assert(lines_model(lines@) =~= Seq::new(i as nat, |k: int| help_line(help_table()[k].0, help_table()[k].1)));
        }
    }
    push_line(&mut lines, Vec::new());
    let mut last: Vec<Piece> = Vec::new();
    push_piece(&mut last, Piece { text: String::from_str("  Press ? or Esc to close"), fg: Some(Tint::Comment), bg: Shade::Reset, bold: false });
    push_line(&mut lines, last);
    let mut title: Vec<Piece> = Vec::new();
    push_piece(&mut title, Piece { text: String::from_str(" Keyboard Shortcuts "), fg: Some(Tint::Blue), bg: Shade::Reset, bold: true });
    proof {
        assert(line_model(Seq::<Piece>::empty()) =~= Seq::<PieceV>::empty());
        assert(lines_model(lines@) =~= help_lines());
    }
    Panel {
        area,
        block: Some(BlockView { title, border: Tint::Blue, fill: Shade::HelpFill }),
        lines,
        bg: Shade::Reset,
        clear: true,
        rule: false,
    }
}

// ---------------------------------------------------------------------------
// The browse layout
// ---------------------------------------------------------------------------

/// The areas of the browse layout.
#[derive(PartialEq, Eq, Structural, Clone, Copy, Debug)]
pub struct NormalRects {
    pub header: Rect,
    pub parent: Rect,
    pub browse: Rect,
    pub children: Rect,
    pub detail: Rect,
    pub deps: Rect,
    pub revs: Rect,
    pub footer: Rect,
}

/// The rows of the browse layout: a header, the top panes, the bottom
/// panes and a footer.
pub open spec fn normal_rows() -> Seq<Constraint> {
    seq![Constraint::Length(1), Constraint::Percentage(60), Constraint::Min(0), Constraint::Length(1)]
}

/// The columns of the top panes: parent, browse, children.
pub open spec fn normal_top() -> Seq<Constraint> {
    seq![Constraint::Percentage(25), Constraint::Percentage(50), Constraint::Min(0)]
}

/// The bottom panes on a narrow screen: the detail pane beside a stack.
pub open spec fn normal_narrow() -> Seq<Constraint> {
    seq![Constraint::Percentage(50), Constraint::Min(0)]
}

/// The stack of the dependency and dependent panes on a narrow screen.
pub open spec fn normal_stack() -> Seq<Constraint> {
    seq![Constraint::Percentage(50), Constraint::Min(0)]
}

/// The bottom panes on a wide screen: detail, dependencies, dependents.
pub open spec fn normal_wide() -> Seq<Constraint> {
    seq![Constraint::Percentage(50), Constraint::Percentage(25), Constraint::Min(0)]
}

/// The browse layout of `screen`: a header; the parent, browse and children
/// panes; the detail pane beside the dependency and dependent panes (these
/// stacked on a screen narrower than 110 cells, side by side otherwise); a
/// footer. Each area is a part of the splits named above.
pub open spec fn normal_rects_ok(screen: Rect, r: NormalRects) -> bool {
    if screen.width < 110 {
        exists|outer: Seq<Rect>, top: Seq<Rect>, bottom: Seq<Rect>, stack: Seq<Rect>|
            #![trigger split_ok(screen, true, normal_rows(), outer), split_ok(outer[1], false, normal_top(), top), split_ok(outer[2], false, normal_narrow(), bottom), split_ok(bottom[1], true, normal_stack(), stack)]
            {
                &&& split_ok(screen, true, normal_rows(), outer)
                &&& split_ok(outer[1], false, normal_top(), top)
                &&& split_ok(outer[2], false, normal_narrow(), bottom)
                &&& split_ok(bottom[1], true, normal_stack(), stack)
                &&& r == NormalRects {
                    header: outer[0],
                    parent: top[0],
                    browse: top[1],
                    children: top[2],
                    detail: bottom[0],
                    deps: stack[0],
                    revs: stack[1],
                    footer: outer[3],
                }
            }
    } else {
        exists|outer: Seq<Rect>, top: Seq<Rect>, bottom: Seq<Rect>|
            #![trigger split_ok(screen, true, normal_rows(), outer), split_ok(outer[1], false, normal_top(), top), split_ok(outer[2], false, normal_wide(), bottom)]
            {
                &&& split_ok(screen, true, normal_rows(), outer)
                &&& split_ok(outer[1], false, normal_top(), top)
                &&& split_ok(outer[2], false, normal_wide(), bottom)
                &&& r == NormalRects {
                    header: outer[0],
                    parent: top[0],
                    browse: top[1],
                    children: top[2],
                    detail: bottom[0],
                    deps: bottom[1],
                    revs: bottom[2],
                    footer: outer[3],
                }
            }
    }
}

/// Every pane of the browse layout ends within a `u16`.
pub open spec fn normal_rects_fit(r: NormalRects) -> bool {
    &&& r.parent.fits()
    &&& r.browse.fits()
    &&& r.children.fits()
    &&& r.detail.fits()
    &&& r.deps.fits()
    &&& r.revs.fits()
}

fn normal_layout(screen: Rect) -> (r: NormalRects)
    ensures
        normal_rects_ok(screen, r),
        screen.fits() ==> normal_rects_fit(r),
{
    let outer = split_area(
        screen,
        true,
        constraints4(Constraint::Length(1), Constraint::Percentage(60), Constraint::Min(0), Constraint::Length(1)),
    );
    let top = split_area(
        outer[1],
        false,
        constraints3(Constraint::Percentage(25), Constraint::Percentage(50), Constraint::Min(0)),
    );
    if screen.width < 110 {
        let bottom = split_area(outer[2], false, constraints2(Constraint::Percentage(50), Constraint::Min(0)));
        let stack = split_area(bottom[1], true, constraints2(Constraint::Percentage(50), Constraint::Min(0)));
        let r = NormalRects {
            header: outer[0],
            parent: top[0],
            browse: top[1],
            children: top[2],
            detail: bottom[0],
            deps: stack[0],
            revs: stack[1],
            footer: outer[3],
        };
        proof {
            assert(split_ok(screen, true, normal_rows(), outer@) && split_ok(outer@[1], false, normal_top(), top@)
                && split_ok(outer@[2], false, normal_narrow(), bottom@) && split_ok(bottom@[1], true, normal_stack(), stack@));
        }
        r
    } else {
        let bottom = split_area(
            outer[2],
            false,
            constraints3(Constraint::Percentage(50), Constraint::Percentage(25), Constraint::Min(0)),
        );
        let r = NormalRects {
            header: outer[0],
            parent: top[0],
            browse: top[1],
            children: top[2],
            detail: bottom[0],
            deps: bottom[1],
            revs: bottom[2],
            footer: outer[3],
        };
        proof {
            assert(split_ok(screen, true, normal_rows(), outer@) && split_ok(outer@[1], false, normal_top(), top@)
                && split_ok(outer@[2], false, normal_wide(), bottom@));
        }
        r
    }
}

/// The entry under the cursor of the middle pane, before any clamping.
pub open spec fn selected_entry(nav: Nav, lv: Seq<(Seq<char>, Node)>) -> Option<(Seq<char>, Node)> {
    match children_at(lv, nav.path) {
        Some(ch) => if nav.cursor < ch.len() {
            Some(ch[nav.cursor as int])
        } else {
            None
        },
        None => None,
    }
}

/// The path segments in bold blue, joined by gray dots.
pub open spec fn crumbs(path: Seq<Seq<char>>) -> Seq<PieceV>
    decreases path.len(),
{
    if path.len() == 0 {
        seq![]
    } else if path.len() == 1 {
        seq![bold(path[0], Tint::Blue)]
    } else {
        crumbs(path.drop_last()) + seq![tinted("."@, Tint::Comment), bold(path.last(), Tint::Blue)]
    }
}

/// The header: the configuration's name, the path of the middle pane and
/// the selected entry in its node's color (bold for a branch).
pub open spec fn normal_header(config: Seq<char>, path: Seq<Seq<char>>, sel: Option<(Seq<char>, Node)>) -> Seq<PieceV> {
    seq![bold(" "@ + config + " "@, Tint::Fg)] + (if path.len() > 0 {
        seq![raw(" "@)] + crumbs(path)
    } else {
        seq![]
    }) + match sel {
        Some(e) => seq![
            if path.len() == 0 {
                raw(" "@)
            } else {
                tinted("."@, Tint::Comment)
            },
            PieceV { text: e.0, fg: Some(name_tint(e.1)), bg: Shade::Reset, bold: e.1 is Branch },
        ],
        None => seq![],
    }
}

fn normal_header_exec(config: &String, path: &Vec<String>, sel_name: Option<&String>, sel_node: Option<&ConfigNode>) -> (l: Vec<Piece>)
    requires
        sel_name is Some <==> sel_node is Some,
    ensures
        line_model(l@) == normal_header(
            config@,
            texts(path@),
            match (sel_name, sel_node) {
                (Some(n), Some(v)) => Some((n@, v.model())),
                _ => None,
            },
        ),
{
    let ghost tp = texts(path@);
    let mut l: Vec<Piece> = Vec::new();
    let mut t = String::from_str(" ");
    t.append(config.as_str());
    t.append(" ");
    push_piece(&mut l, Piece { text: t, fg: Some(Tint::Fg), bg: Shade::Reset, bold: true });
    let ghost head = line_model(l@);
    if path.len() > 0 {
        push_piece(&mut l, raw_piece(" "));
        let ghost start = line_model(l@);
        let mut i: usize = 0;
        while i < path.len()
            invariant
                0 < path.len(),
                i <= path.len(),
                tp == texts(path@),
                line_model(l@) == start + crumbs(tp.take(i as int)),
            decreases path.len() - i,
        {
            let ghost before = line_model(l@);
            if i > 0 {
                push_piece(&mut l, Piece { text: String::from_str("."), fg: Some(Tint::Comment), bg: Shade::Reset, bold: false });
            }
            push_piece(&mut l, Piece { text: copy_string(&path[i]), fg: Some(Tint::Blue), bg: Shade::Reset, bold: true });
            proof {
                assert(tp.take(i + 1).drop_last() =~= tp.take(i as int));
                assert(tp.take(i + 1).last() == path@[i as int]@);
                if i == 0 {
                    assert(crumbs(tp.take(0)) =~= seq![]);
                }
                assert(line_model(l@) =~= start + crumbs(tp.take(i + 1)));
            }
            i += 1;
        }
        proof {
            assert(tp.take(path.len() as int) =~= tp);
        }
    }
    let ghost mid = line_model(l@);
    match (sel_name, sel_node) {
        (Some(n), Some(v)) => {
            if path.len() == 0 {
                push_piece(&mut l, raw_piece(" "));
            } else {
                push_piece(&mut l, Piece { text: String::from_str("."), fg: Some(Tint::Comment), bg: Shade::Reset, bold: false });
            }
            let is_branch = match v {
                ConfigNode::Branch(_) => true,
                _ => false,
            };
            push_piece(&mut l, Piece { text: copy_string(n), fg: Some(node_name_color(v)), bg: Shade::Reset, bold: is_branch });
        },
        _ => {},
    }
    proof {
        assert(line_model(l@) =~= normal_header(
            config@,
            tp,
            match (sel_name, sel_node) {
                (Some(n), Some(v)) => Some((n@, v.model())),
                _ => None,
            },
        ));
    }
    l
}

/// The rows of the parent pane: the level above the middle pane, with the
/// middle pane's own entry highlighted and scrolled to about half the
/// height; blank at the top level. The second part says whether the rows
/// can be made.
pub open spec fn parent_rows(path: Seq<Seq<char>>, lv: Seq<(Seq<char>, Node)>, area: Rect) -> (Seq<Seq<PieceV>>, bool) {
    let inner = bordered(area);
    let h = inner.height as nat;
    if path.len() == 0 {
        (blanks(h), true)
    } else {
        match children_at(lv, path.drop_last()) {
            Some(pc) => {
                let hl = path.last();
                let ls: nat = match find_name(pc, hl) {
                    Some(i) => if i >= h / 2 {
                        (i - h / 2) as nat
                    } else {
                        0
                    },
                    None => 0,
                };
                (
                    pane_list(pc, Some(hl), None, ls, h, inner.width, None, seq![]),
                    ls + h <= usize::MAX && pane_list_ok(pc, ls, h, inner.width),
                )
            },
            None => (blanks(h), true),
        }
    }
}

fn parent_rows_exec(path: &Vec<String>, root_children: &Vec<(String, ConfigNode)>, area: Rect) -> (r: Option<Vec<Vec<Piece>>>)
    ensures
        match r {
            Some(rows) => parent_rows(texts(path@), level(root_children@), area).1 && lines_model(rows@) == parent_rows(
                texts(path@),
                level(root_children@),
                area,
            ).0,
            None => !parent_rows(texts(path@), level(root_children@), area).1,
        },
{
    let ghost tp = texts(path@);
    let inner = bordered_inner(area);
    let h = inner.height as usize;
    if path.len() == 0 {
        return Some(blank_lines(h));
    }
    let n = path.len() - 1;
    proof {
        assert(texts(path@.take(n as int)) =~= tp.drop_last());
    }
    match children_at_prefix(root_children, path, n) {
        Some(pc) => {
            let hl = &path[n];
            proof {
                assert(tp.last() == hl@);
                lemma_find_bound(level(pc@), hl@);
            }
            let ls: usize = match position_of(pc, hl) {
                Some(i) => if i >= h / 2 {
                    i - h / 2
                } else {
                    0
                },
                None => 0,
            };
            if ls > usize::MAX - h || !pane_list_fits(pc, ls, h, inner.width) {
                return None;
            }
            let empty: Vec<String> = Vec::new();
            proof {
                assert(texts(empty@) =~= seq![]);
            }
            Some(render_pane_list(pc, Some(hl), None, ls, h, inner.width, None, &empty))
        },
        None => Some(blank_lines(h)),
    }
}

proof fn lemma_find_bound(lv: Seq<(Seq<char>, Node)>, name: Seq<char>)
    ensures
        find_name(lv, name) matches Some(i) ==> 0 <= i < lv.len(),
    decreases lv.len(),
{
    if lv.len() > 0 && lv[0].0 != name {
        lemma_find_bound(lv.drop_first(), name);
    }
}

/// The footer of the browse layout: the status message when there is one,
/// else the main keys and the cursor's position in the middle pane.
pub open spec fn normal_footer(status: Option<Seq<char>>, cursor: usize, count: nat) -> Seq<PieceV> {
    match status {
        Some(m) => seq![raw(" "@), PieceV { text: " "@ + m + " "@, fg: Some(Tint::Dark), bg: Shade::Status, bold: false }],
        None => seq![raw(" "@)] + pill("\u{2191}\u{2193}"@, "move"@) + pill("\u{2190}\u{2192}"@, "in/out"@) + pill("/"@, "search"@)
            + pill("?"@, "help"@) + pill("q"@, "quit"@) + seq![tinted(position((cursor + 1) as nat, count), Tint::Comment)],
    }
}

fn normal_footer_exec(status: &Option<String>, cursor: usize, count: usize) -> (l: Vec<Piece>)
    requires
        cursor < usize::MAX,
    ensures
        line_model(l@) == normal_footer(
            match status {
                Some(m) => Some(m@),
                None => None,
            },
            cursor,
            count as nat,
        ),
{
    let mut l: Vec<Piece> = Vec::new();
    push_piece(&mut l, raw_piece(" "));
    match status {
        Some(m) => {
            let mut t = String::from_str(" ");
            t.append(m.as_str());
            t.append(" ");
            push_piece(&mut l, Piece { text: t, fg: Some(Tint::Dark), bg: Shade::Status, bold: false });
        },
        None => {
            push_pill(&mut l, "\u{2191}\u{2193}", "move");
            push_pill(&mut l, "\u{2190}\u{2192}", "in/out");
            push_pill(&mut l, "/", "search");
            push_pill(&mut l, "?", "help");
            push_pill(&mut l, "q", "quit");
            push_piece(&mut l, Piece { text: position_text(cursor + 1, count), fg: Some(Tint::Comment), bg: Shade::Reset, bold: false });
        },
    }
    proof {
        assert(line_model(l@) =~= normal_footer(
            match status {
                Some(m) => Some(m@),
                None => None,
            },
            cursor,
            count as nat,
        ));
    }
    l
}

/// The cursor and scroll offset of the middle pane after clamping them to
/// the pane; unchanged when the path leads nowhere.
pub open spec fn browse_window(nav: Nav, lv: Seq<(Seq<char>, Node)>, r: NormalRects) -> (int, int) {
    match children_at(lv, nav.path) {
        Some(ch) => clamped(nav.cursor as int, nav.scroll as int, ch.len() as int, bordered(r.browse).height as int),
        None => (nav.cursor as int, nav.scroll as int),
    }
}

/// The cursor and scroll offset of the dependency panes after clamping them
/// to the focused one; unchanged when neither has the focus.
pub open spec fn side_window(nav: Nav, dep_count: nat, rev_count: nat, r: NormalRects) -> (int, int) {
    if nav.focus == Focus::Deps {
        clamped(nav.deps_cursor as int, nav.deps_scroll as int, dep_count as int, bordered(r.deps).height as int)
    } else if nav.focus == Focus::Revs {
        clamped(nav.deps_cursor as int, nav.deps_scroll as int, rev_count as int, bordered(r.revs).height as int)
    } else {
        (nav.deps_cursor as int, nav.deps_scroll as int)
    }
}

/// The full path of the selected entry, or the middle pane's path.
pub open spec fn selected_path(nav: Nav, lv: Seq<(Seq<char>, Node)>) -> Seq<Seq<char>> {
    match selected_entry(nav, lv) {
        Some(e) => nav.path.push(e.0),
        None => nav.path,
    }
}

/// The rows of the middle pane and whether they can be made.
pub open spec fn browse_rows(nav: Nav, lv: Seq<(Seq<char>, Node)>, r: NormalRects) -> (Seq<Seq<PieceV>>, bool) {
    let inner = bordered(r.browse);
    let w = browse_window(nav, lv, r);
    match children_at(lv, nav.path) {
        Some(ch) => (
            pane_list(ch, None, Some(w.0 as usize), w.1 as nat, inner.height as nat, inner.width, None, seq![]),
            pane_list_ok(ch, w.1 as nat, inner.height as nat, inner.width),
        ),
        None => (blanks(inner.height as nat), true),
    }
}

/// The rows of the children pane and whether they can be made.
pub open spec fn children_rows(nav: Nav, lv: Seq<(Seq<char>, Node)>, r: NormalRects) -> (Seq<Seq<PieceV>>, bool) {
    let inner = bordered(r.children);
    match selected_entry(nav, lv) {
        Some(e) => match e.1 {
            Node::Branch(cl) => (
                pane_list(cl, None, None, 0, inner.height as nat, inner.width, None, seq![]),
                pane_list_ok(cl, 0, inner.height as nat, inner.width),
            ),
            _ => (blanks(inner.height as nat), true),
        },
        None => (blanks(inner.height as nat), true),
    }
}

/// What the browse layout shows (with the help overlay over it when
/// `help`), whether every row of it can be made, the areas it records for
/// the mouse, and the browser's position after the clamping it does.
pub open spec fn normal_view(
    help: bool,
    nav: Nav,
    lv: Seq<(Seq<char>, Node)>,
    deps: DepsIndex,
    config: Seq<char>,
    status: Option<Seq<char>>,
    l: FrameLayout,
    areas: PaneAreas,
) -> (Seq<PanelV>, bool, PaneAreas, Nav) {
    let r = l.normal;
    let count: nat = match children_at(lv, nav.path) {
        Some(ch) => ch.len(),
        None => 0,
    };
    let sel = selected_entry(nav, lv);
    let bw = browse_window(nav, lv, r);
    let full = selected_path(nav, lv);
    let key = join_dots(full);
    let dep_items = listed(table_model(deps.dependencies@), key);
    let rev_items = listed(table_model(deps.dependents@), key);
    let sw = side_window(nav, dep_items.len(), rev_items.len(), r);
    let dep_scroll: usize = if nav.focus == Focus::Revs {
        nav.deps_scroll
    } else {
        sw.1 as usize
    };
    let sel_detail = match sel {
        Some(e) => Some((full, e.1)),
        None => None,
    };
    let parent = parent_rows(nav.path, lv, r.parent);
    let browse = browse_rows(nav, lv, r);
    let children = children_rows(nav, lv, r);
    let panels = seq![
        bar(r.header, normal_header(config, nav.path, sel)),
        framed(r.parent, plain_block("Parent"@, false), parent.0),
        framed(r.browse, keyed_block("Browse"@, None, 'b', nav.focus == Focus::Middle), browse.0),
        framed(r.children, plain_block("Children"@, false), children.0),
        detail_panel(sel_detail, nav.detail_scroll, r.detail, nav.focus == Focus::Detail),
        dep_panel(
            "Dependencies"@,
            'p',
            dep_items,
            if nav.focus == Focus::Deps {
                Some(sw.0 as usize)
            } else {
                None
            },
            dep_scroll,
            r.deps,
            nav.focus == Focus::Deps,
            lv,
        ),
        dep_panel(
            "Dependents"@,
            'n',
            rev_items,
            if nav.focus == Focus::Revs {
                Some(sw.0 as usize)
            } else {
                None
            },
            sw.1 as usize,
            r.revs,
            nav.focus == Focus::Revs,
            lv,
        ),
        bar(r.footer, normal_footer(status, bw.0 as usize, count)),
    ] + (if help {
        seq![help_panel(l.help)]
    } else {
        seq![]
    });
    let ok = parent.1 && browse.1 && children.1 && detail_panel_ok(sel_detail) && dep_panel_ok(dep_items, dep_scroll, r.deps, lv)
        && dep_panel_ok(rev_items, sw.1 as usize, r.revs, lv);
    let new_areas = PaneAreas {
        parent_inner: bordered(r.parent),
        browse_inner: bordered(r.browse),
        children_inner: bordered(r.children),
        detail_inner: bordered(r.detail),
        deps_inner: bordered(r.deps),
        revs_inner: bordered(r.revs),
        browse_scroll: bw.1 as usize,
        deps_scroll: sw.1 as usize,
        browse_count: count as usize,
        deps_count: dep_items.len() as usize,
        revs_count: rev_items.len() as usize,
        ..areas
    };
    let new_nav = Nav { cursor: bw.0 as usize, scroll: bw.1 as usize, deps_cursor: sw.0 as usize, deps_scroll: sw.1 as usize, ..nav };
    (panels, ok, new_areas, new_nav)
}

fn browse_rows_exec(middle: Option<&Vec<(String, ConfigNode)>>, cursor: usize, scroll: usize, area: Rect) -> (r: Option<Vec<Vec<Piece>>>)
    requires
        room(scroll),
    ensures
        ({
            let inner = bordered(area);
            let want: (Seq<Seq<PieceV>>, bool) = match middle {
                Some(ch) => (
                    pane_list(level(ch@), None, Some(cursor), scroll as nat, inner.height as nat, inner.width, None, seq![]),
                    pane_list_ok(level(ch@), scroll as nat, inner.height as nat, inner.width),
                ),
                None => (blanks(inner.height as nat), true),
            };
            match r {
                Some(rows) => want.1 && lines_model(rows@) == want.0,
                None => !want.1,
            }
        }),
{
    let inner = bordered_inner(area);
    let h = inner.height as usize;
    match middle {
        Some(ch) => {
            if !pane_list_fits(ch, scroll, h, inner.width) {
                return None;
            }
            let empty: Vec<String> = Vec::new();
            proof {
                assert(texts(empty@) =~= seq![]);
            }
            Some(render_pane_list(ch, None, Some(cursor), scroll, h, inner.width, None, &empty))
        },
        None => Some(blank_lines(h)),
    }
}

fn children_rows_exec(node: Option<&ConfigNode>, area: Rect) -> (r: Option<Vec<Vec<Piece>>>)
    ensures
        ({
            let inner = bordered(area);
            let want: (Seq<Seq<PieceV>>, bool) = match node {
                Some(n) => match n.model() {
                    Node::Branch(cl) => (
                        pane_list(cl, None, None, 0, inner.height as nat, inner.width, None, seq![]),
                        pane_list_ok(cl, 0, inner.height as nat, inner.width),
                    ),
                    _ => (blanks(inner.height as nat), true),
                },
                None => (blanks(inner.height as nat), true),
            };
            match r {
                Some(rows) => want.1 && lines_model(rows@) == want.0,
                None => !want.1,
            }
        }),
{
    let inner = bordered_inner(area);
    let h = inner.height as usize;
    match node {
        Some(ConfigNode::Branch(cl)) => {
            proof {
                lemma_branch_model(cl);
            }
            if !pane_list_fits(cl, 0, h, inner.width) {
                return None;
            }
            let empty: Vec<String> = Vec::new();
            proof {
                assert(texts(empty@) =~= seq![]);
            }
            Some(render_pane_list(cl, None, None, 0, h, inner.width, None, &empty))
        },
        _ => Some(blank_lines(h)),
    }
}

fn clamp_browse(state: &mut MillerState, total: Option<usize>, h: usize)
    requires
        h <= u16::MAX,
        short_of_room(old(state).cursor),
        short_of_room(old(state).scroll),
    ensures
        ({
            let w: (int, int) = match total {
                Some(t) => clamped(old(state).cursor as int, old(state).scroll as int, t as int, h as int),
                None => (old(state).cursor as int, old(state).scroll as int),
            };
            &&& final(state).nav() == (Nav { cursor: w.0 as usize, scroll: w.1 as usize, ..old(state).nav() })
            &&& final(state).path_memory == old(state).path_memory
            &&& final(state).path == old(state).path
        }),
        room(final(state).scroll),
        final(state).cursor <= old(state).cursor,
{
    match total {
        Some(t) => {
            proof {
                lemma_clamped_bound(state.cursor as int, state.scroll as int, t as int, h as int);
            }
            clamp_cursor(&mut state.cursor, &mut state.scroll, t, h);
        },
        None => {},
    }
}

fn clamp_sides(state: &mut MillerState, dep_count: usize, rev_count: usize, dh: usize, rh: usize)
    requires
        dh <= u16::MAX,
        rh <= u16::MAX,
        short_of_room(old(state).deps_cursor),
        short_of_room(old(state).deps_scroll),
    ensures
        ({
            let nav = old(state).nav();
            let w: (int, int) = if nav.focus == Focus::Deps {
                clamped(nav.deps_cursor as int, nav.deps_scroll as int, dep_count as int, dh as int)
            } else if nav.focus == Focus::Revs {
                clamped(nav.deps_cursor as int, nav.deps_scroll as int, rev_count as int, rh as int)
            } else {
                (nav.deps_cursor as int, nav.deps_scroll as int)
            };
            &&& final(state).nav() == (Nav { deps_cursor: w.0 as usize, deps_scroll: w.1 as usize, ..nav })
            &&& final(state).path_memory == old(state).path_memory
            &&& final(state).path == old(state).path
        }),
        room(final(state).deps_scroll),
{
    if state.focus == Focus::Deps {
        proof {
            lemma_clamped_bound(state.deps_cursor as int, state.deps_scroll as int, dep_count as int, dh as int);
        }
        clamp_cursor(&mut state.deps_cursor, &mut state.deps_scroll, dep_count, dh);
    } else if state.focus == Focus::Revs {
        proof {
            lemma_clamped_bound(state.deps_cursor as int, state.deps_scroll as int, rev_count as int, rh as int);
        }
        clamp_cursor(&mut state.deps_cursor, &mut state.deps_scroll, rev_count, rh);
    }
}

fn assemble(
    help: bool,
    r: NormalRects,
    help_area: Rect,
    header: Vec<Piece>,
    parent: Vec<Vec<Piece>>,
    browse: Vec<Vec<Piece>>,
    children: Vec<Vec<Piece>>,
    detail: Panel,
    deps: Panel,
    revs: Panel,
    footer: Vec<Piece>,
    browse_active: bool,
) -> (p: Vec<Panel>)
    ensures
        panels_model(p@) == seq![
            bar(r.header, line_model(header@)),
            framed(r.parent, plain_block("Parent"@, false), lines_model(parent@)),
            framed(r.browse, keyed_block("Browse"@, None, 'b', browse_active), lines_model(browse@)),
            framed(r.children, plain_block("Children"@, false), lines_model(children@)),
            detail.model(),
            deps.model(),
            revs.model(),
            bar(r.footer, line_model(footer@)),
        ] + (if help {
            seq![help_panel(help_area)]
        } else {
            seq![]
        }),
{
    let mut panels: Vec<Panel> = Vec::new();
    push_panel(&mut panels, bar_panel(r.header, header));
    push_panel(&mut panels, framed_panel(r.parent, make_block("Parent", false), parent));
    push_panel(&mut panels, framed_panel(r.browse, make_block_keyed("Browse", None, 'b', browse_active), browse));
    push_panel(&mut panels, framed_panel(r.children, make_block("Children", false), children));
    push_panel(&mut panels, detail);
    push_panel(&mut panels, deps);
    push_panel(&mut panels, revs);
    push_panel(&mut panels, bar_panel(r.footer, footer));
    if help {
        push_panel(&mut panels, help_panel_exec(help_area));
    }
    proof {
        assert(panels_model(panels@) =~= seq![
            bar(r.header, line_model(header@)),
            framed(r.parent, plain_block("Parent"@, false), lines_model(parent@)),
            framed(r.browse, keyed_block("Browse"@, None, 'b', browse_active), lines_model(browse@)),
            framed(r.children, plain_block("Children"@, false), lines_model(children@)),
            detail.model(),
            deps.model(),
            revs.model(),
            bar(r.footer, line_model(footer@)),
        ] + (if help {
            seq![help_panel(help_area)]
        } else {
            seq![]
        }));
    }
    panels
}

/// The entry under the cursor of the middle pane.
fn select_entry<'a>(middle: Option<&'a Vec<(String, ConfigNode)>>, cursor: usize) -> (r: (Option<&'a String>, Option<&'a ConfigNode>))
    ensures
        r.0 is Some <==> r.1 is Some,
        match (r.0, r.1) {
            (Some(n), Some(v)) => Some((n@, v.model())),
            _ => None,
        } == match middle {
            Some(ch) => if cursor < ch@.len() {
                Some(level(ch@)[cursor as int])
            } else {
                None
            },
            None => None,
        },
{
    match middle {
        Some(ch) => if cursor < ch.len() {
            (Some(&ch[cursor].0), Some(&ch[cursor].1))
        } else {
            (None, None)
        },
        None => (None, None),
    }
}

/// What the browse layout draws (with the help overlay when `help`), or
/// none where a row cannot be made. It clamps the cursors of the middle pane
/// and of the focused dependency pane, and records the areas for the mouse,
/// either way.
#[verifier::rlimit(100)]
pub fn normal_frame(
    help: bool,
    state: &mut MillerState,
    root_children: &Vec<(String, ConfigNode)>,
    deps_index: &DepsIndex,
    config: &String,
    status_msg: &Option<String>,
    l: FrameLayout,
    pane_areas: &mut PaneAreas,
) -> (r: Option<Vec<Panel>>)
    requires
        short_of_room(old(state).cursor),
        short_of_room(old(state).scroll),
        short_of_room(old(state).deps_cursor),
        short_of_room(old(state).deps_scroll),
    ensures
        ({
            let v = normal_view(
                help,
                old(state).nav(),
                level(root_children@),
                *deps_index,
                config@,
                match status_msg {
                    Some(m) => Some(m@),
                    None => None,
                },
                l,
                *old(pane_areas),
            );
            &&& final(state).nav() == v.3
            &&& final(state).path_memory == old(state).path_memory
            &&& *final(pane_areas) == v.2
            &&& match r {
                Some(p) => v.1 && panels_model(p@) == v.0,
                None => !v.1,
            }
        }),
        final(pane_areas).browse_count == match children_at(level(root_children@), old(state).nav().path) {
            Some(ch) => ch.len(),
            None => 0,
        },
        normal_rects_fit(l.normal) ==> {
            &&& final(pane_areas).parent_inner.fits()
            &&& final(pane_areas).browse_inner.fits()
            &&& final(pane_areas).children_inner.fits()
            &&& final(pane_areas).detail_inner.fits()
            &&& final(pane_areas).deps_inner.fits()
            &&& final(pane_areas).revs_inner.fits()
        },
        room(final(pane_areas).browse_scroll),
        room(final(pane_areas).deps_scroll),
{
    let ghost lv = level(root_children@);
    let ghost nav0 = state.nav();
    let ghost status = match status_msg {
        Some(m) => Some(m@),
        None => None,
    };
    let ghost v = normal_view(help, nav0, lv, *deps_index, config@, status, l, *old(pane_areas));
    let r = l.normal;
    let middle = get_children_at_path(root_children, &state.path);
    let count: usize = match middle {
        Some(ch) => ch.len(),
        None => 0,
    };
    let (sel_name, sel_node) = select_entry(middle, state.cursor);
    let header = normal_header_exec(config, &state.path, sel_name, sel_node);
    let mut full = copy_strings(&state.path);
    match sel_name {
        Some(n) => full.push(copy_string(n)),
        None => {},
    }
    proof {
        assert(texts(full@) =~= selected_path(nav0, lv));
    }
    let key = join_path(&full);
    let dep_items = listed_items(deps_index.dependencies_of(&key));
    let rev_items = listed_items(deps_index.dependents_of(&key));
    let bin = bordered_inner(r.browse);
    let total = match middle {
        Some(ch) => Some(ch.len()),
        None => None,
    };
    let old_deps_scroll = state.deps_scroll;
    clamp_browse(state, total, bin.height as usize);
    clamp_sides(
        state,
        dep_items.len(),
        rev_items.len(),
        bordered_inner(r.deps).height as usize,
        bordered_inner(r.revs).height as usize,
    );
    proof {
        assert(texts(dep_items@).len() == dep_items@.len());
        assert(texts(rev_items@).len() == rev_items@.len());
        assert(state.nav() == v.3);
    }
    let dep_scroll = if state.focus == Focus::Revs {
        old_deps_scroll
    } else {
        state.deps_scroll
    };
    pane_areas.parent_inner = bordered_inner(r.parent);
    pane_areas.browse_inner = bin;
    pane_areas.children_inner = bordered_inner(r.children);
    pane_areas.detail_inner = bordered_inner(r.detail);
    pane_areas.deps_inner = bordered_inner(r.deps);
    pane_areas.revs_inner = bordered_inner(r.revs);
    pane_areas.browse_scroll = state.scroll;
    pane_areas.deps_scroll = state.deps_scroll;
    pane_areas.browse_count = count;
    pane_areas.deps_count = dep_items.len();
    pane_areas.revs_count = rev_items.len();
    proof {
        assert(*pane_areas == v.2);
    }
    let parent = match parent_rows_exec(&state.path, root_children, r.parent) {
        Some(rows) => rows,
        None => {
            return None;
        },
    };
    let browse = match browse_rows_exec(middle, state.cursor, state.scroll, r.browse) {
        Some(rows) => rows,
        None => {
            return None;
        },
    };
    let children = match children_rows_exec(sel_node, r.children) {
        Some(rows) => rows,
        None => {
            return None;
        },
    };
    let detail = match detail_panel_exec(&full, sel_node, state.detail_scroll, r.detail, state.focus == Focus::Detail) {
        Some(p) => p,
        None => {
            return None;
        },
    };
    let deps_cursor_shown = if state.focus == Focus::Deps {
        Some(state.deps_cursor)
    } else {
        None
    };
    let revs_cursor_shown = if state.focus == Focus::Revs {
        Some(state.deps_cursor)
    } else {
        None
    };
    let deps_panel = match dep_panel_exec(
        "Dependencies",
        'p',
        &dep_items,
        deps_cursor_shown,
        dep_scroll,
        r.deps,
        state.focus == Focus::Deps,
        root_children,
    ) {
        Some(p) => p,
        None => {
            return None;
        },
    };
    let revs_panel = match dep_panel_exec(
        "Dependents",
        'n',
        &rev_items,
        revs_cursor_shown,
        state.deps_scroll,
        r.revs,
        state.focus == Focus::Revs,
        root_children,
    ) {
        Some(p) => p,
        None => {
            return None;
        },
    };
    let footer = normal_footer_exec(status_msg, state.cursor, count);
    let panels = assemble(
        help,
        r,
        l.help,
        header,
        parent,
        browse,
        children,
        detail,
        deps_panel,
        revs_panel,
        footer,
        state.focus == Focus::Middle,
    );
    proof {
        assert(panels_model(panels@) =~= v.0);
    }
    Some(panels)
}

// ---------------------------------------------------------------------------
// A frame
// ---------------------------------------------------------------------------

/// Every counter that a frame clamps has room for one more.
pub open spec fn frame_counters_fit(mode: ModeV, nav: Nav) -> bool {
    &&& short_of_room(nav.cursor)
    &&& short_of_room(nav.scroll)
    &&& short_of_room(nav.deps_cursor)
    &&& short_of_room(nav.deps_scroll)
    &&& match mode {
        ModeV::Search { cursor, scroll, deps_cursor, deps_scroll, .. } => short_of_room(cursor) && short_of_room(scroll)
            && short_of_room(deps_cursor) && short_of_room(deps_scroll),
        _ => true,
    }
}

/// Whether every counter that a frame clamps has room for one more.
pub fn frame_counters_have_room(mode: &Mode, state: &MillerState) -> (b: bool)
    ensures
        b == frame_counters_fit(mode.model(), state.nav()),
{
    let limit = usize::MAX - 65536;
    let base = state.cursor < limit && state.scroll < limit && state.deps_cursor < limit && state.deps_scroll < limit;
    match mode {
        Mode::Search { cursor, scroll, deps_cursor, deps_scroll, .. } => base && *cursor < limit && *scroll < limit
            && *deps_cursor < limit && *deps_scroll < limit,
        _ => base,
    }
}

/// The areas of every layout of one screen.
#[derive(PartialEq, Eq, Structural, Clone, Copy, Debug)]
pub struct FrameLayout {
    pub pager_body: Rect,
    pub pager_footer: Rect,
    pub search: SearchRects,
    pub normal: NormalRects,
    pub help: Rect,
}

/// The parts of the pager: the value above a one-line footer.
pub open spec fn pager_rows() -> Seq<Constraint> {
    seq![Constraint::Min(1), Constraint::Length(1)]
}

/// What holds of the layouts of `screen`: the pager's split, the search
/// layout, the browse layout, and the help box of 60 by 70 percent in the
/// middle of the screen (`centered_box` where the screen ends within a
/// `u16`).
pub open spec fn frame_layout_ok(screen: Rect, l: FrameLayout) -> bool {
    &&& split_ok(screen, true, pager_rows(), seq![l.pager_body, l.pager_footer])
    &&& search_rects_ok(screen, l.search)
    &&& normal_rects_ok(screen, l.normal)
    &&& centered_ok(60, 70, screen, l.help)
    &&& screen.fits() ==> l.help == centered_box(60, 70, screen)
}

/// Every pane of the layouts ends within a `u16`.
pub open spec fn frame_layout_fits(l: FrameLayout) -> bool {
    search_rects_fit(l.search) && normal_rects_fit(l.normal)
}

/// Splits `screen` into the areas of every layout.
pub fn frame_layout(screen: Rect) -> (l: FrameLayout)
    ensures
        frame_layout_ok(screen, l),
        screen.fits() ==> frame_layout_fits(l),
{
    let pager = split_area(screen, true, constraints2(Constraint::Min(1), Constraint::Length(1)));
    let l = FrameLayout {
        pager_body: pager[0],
        pager_footer: pager[1],
        search: search_layout(screen),
        normal: normal_layout(screen),
        help: centered_rect(60, 70, screen),
    };
    proof {
        assert(pager@ =~= seq![l.pager_body, l.pager_footer]);
    }
    l
}

/// What a frame shows in each mode, whether it can be drawn (every row can
/// be made, and a search has a path under its cursor), the areas it records
/// for the mouse and the browser's position after it.
/// The pager and the search leave the browser's position as it was.
pub open spec fn frame_view(
    mode: ModeV,
    nav: Nav,
    lv: Seq<(Seq<char>, Node)>,
    deps: DepsIndex,
    config: Seq<char>,
    status: Option<Seq<char>>,
    l: FrameLayout,
    areas: PaneAreas,
) -> (Seq<PanelV>, bool, PaneAreas, Nav) {
    match mode {
        ModeV::Pager { path, lines, scroll, color } => (pager_panels(path, lines, scroll, color, l), true, areas, nav),
        ModeV::Search { query, results, cursor, scroll, right_focus, detail_scroll, deps_cursor, deps_scroll } => {
            let v = search_view(
                query,
                results,
                cursor,
                scroll,
                right_focus,
                detail_scroll,
                deps_cursor,
                deps_scroll,
                lv,
                deps,
                l.search,
                areas,
            );
            (v.0, v.1, v.2, nav)
        },
        ModeV::Help => normal_view(true, nav, lv, deps, config, status, l, areas),
        ModeV::Normal => normal_view(false, nav, lv, deps, config, status, l, areas),
    }
}

/// What a frame draws in the current mode, or none where it cannot be
/// drawn (see `frame_view`). It clamps the browser's cursors and records the
/// areas of the panes either way, and the recorded areas stay usable for the
/// mouse.
pub fn render_frame(
    mode: &Mode,
    state: &mut MillerState,
    root_children: &Vec<(String, ConfigNode)>,
    deps_index: &DepsIndex,
    config: &String,
    status_msg: &Option<String>,
    pane_areas: &mut PaneAreas,
    layout: FrameLayout,
) -> (r: Option<Vec<Panel>>)
    requires
        frame_counters_fit(mode.model(), old(state).nav()),
        old(pane_areas).wf(),
        frame_layout_fits(layout),
    ensures
        ({
            let v = frame_view(
                mode.model(),
                old(state).nav(),
                level(root_children@),
                *deps_index,
                config@,
                match status_msg {
                    Some(m) => Some(m@),
                    None => None,
                },
                layout,
                *old(pane_areas),
            );
            &&& final(state).nav() == v.3
            &&& *final(pane_areas) == v.2
            &&& match r {
                Some(p) => v.1 && panels_model(p@) == v.0,
                None => !v.1,
            }
        }),
        final(state).path_memory == old(state).path_memory,
        old(state).wf() ==> final(state).wf(),
        final(pane_areas).wf(),
        mode.model() is Normal || mode.model() is Help ==> final(pane_areas).browse_count == match children_at(
            level(root_children@),
            old(state).nav().path,
        ) {
            Some(ch) => ch.len(),
            None => 0,
        },
{
    match mode {
        Mode::Pager { path, lines, scroll, color } => Some(pager_frame(path, lines, *scroll, *color, layout)),
        Mode::Search { query, results, cursor, scroll, right_focus, detail_scroll, deps_cursor, deps_scroll } => {
            let r = search_frame(
                query,
                results,
                *cursor,
                *scroll,
                *right_focus,
                *detail_scroll,
                *deps_cursor,
                *deps_scroll,
                root_children,
                deps_index,
                layout.search,
                pane_areas,
            );
            r
        },
        Mode::Help => {
            normal_frame(true, state, root_children, deps_index, config, status_msg, layout, pane_areas)
        },
        Mode::Normal => {
            normal_frame(false, state, root_children, deps_index, config, status_msg, layout, pane_areas)
        },
    }
}

/// Before each frame: the number of entries in the middle pane, with the
/// cursor moved onto the last of them when past it (onto 0 when there are
/// none).
pub fn settle_cursor(state: &mut MillerState, root_children: &Vec<(String, ConfigNode)>) -> (count: usize)
    ensures
        count == match children_at(level(root_children@), old(state).nav().path) {
            Some(ch) => ch.len(),
            None => 0,
        },
        final(state).nav() == (Nav {
            cursor: if count == 0 {
                0
            } else if old(state).cursor >= count {
                (count - 1) as usize
            } else {
                old(state).cursor
            },
            ..old(state).nav()
        }),
        final(state).path_memory == old(state).path_memory,
        old(state).wf() ==> final(state).wf(),
{
    let count = match get_children_at_path(root_children, &state.path) {
        Some(ch) => ch.len(),
        None => 0,
    };
    if count == 0 {
        state.cursor = 0;
    } else if state.cursor >= count {
        state.cursor = count - 1;
    }
    count
}

} // verus!
