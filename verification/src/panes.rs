use vstd::prelude::*;

use crate::assoc::{keys_distinct, lemma_assoc_map};
use crate::browse::{name_tint, node_name_color, value_color, value_tint, Tint};
use crate::browse_input::phantom_note;
use crate::json::{entries_model, Json, JsonValue};
use crate::paths::{join_dots, join_path, texts};
use crate::text::{copy_string, push_char, same_text};
use crate::tree::{ConfigNode, Node};
use crate::tree_diff::{get_tag, tag_map, tag_or_unchanged, value_map, DiffContext, DiffTag};
use crate::values::{
    byte_len, byte_prefix, decimal, format_value_full, format_value_short, full_lines, full_ok, on_boundary,
    prefix_bytes, push_decimal, short_ok, short_text, utf8_len,
};
use crate::text::{chars_of, string_of};
use crate::tree_diff::{get_diff_tag, shown_tag};
use crate::tree::{level, lookup, lookup_node};
use crate::checks::short_fits;
use crate::paths::{split_dots, split_path};

verus! {

// ---------------------------------------------------------------------------
// Styled text
// ---------------------------------------------------------------------------

/// The background of a piece of text.
#[derive(PartialEq, Eq, Structural, Clone, Copy, Debug)]
pub enum Shade {
    Reset,
    Cursor,
    ParentHighlight,
    Highlight,
    DeleteLine,
    InsertLine,
    ModifiedLine,
    DeleteCursor,
    InsertCursor,
    ModifiedCursor,
    /// The header and footer bars.
    Header,
    /// The key of a footer pill.
    KeyPill,
    /// The description of a footer pill.
    DescPill,
    /// A status message.
    Status,
    /// The help overlay.
    HelpFill,
    /// The terminal's dark gray.
    Gray,
    /// The terminal's yellow.
    Yellow,
}

/// A piece of text with its style; `fg` is `None` for the terminal's own color.
pub struct Piece {
    pub text: String,
    pub fg: Option<Tint>,
    pub bg: Shade,
    pub bold: bool,
}

/// The model of a piece of text.
pub struct PieceV {
    pub text: Seq<char>,
    pub fg: Option<Tint>,
    pub bg: Shade,
    pub bold: bool,
}

impl Piece {
    pub open spec fn model(&self) -> PieceV {
        PieceV { text: self.text@, fg: self.fg, bg: self.bg, bold: self.bold }
    }
}

/// The models of the pieces of a line.
pub open spec fn line_model(v: Seq<Piece>) -> Seq<PieceV> {
    Seq::new(v.len(), |i: int| v[i].model())
}

/// The models of lines.
pub open spec fn lines_model(v: Seq<Vec<Piece>>) -> Seq<Seq<PieceV>> {
    Seq::new(v.len(), |i: int| line_model(v[i]@))
}

/// Plain text in a color.
pub open spec fn tinted(text: Seq<char>, t: Tint) -> PieceV {
    PieceV { text, fg: Some(t), bg: Shade::Reset, bold: false }
}

/// Bold text in a color.
pub open spec fn bold(text: Seq<char>, t: Tint) -> PieceV {
    PieceV { text, fg: Some(t), bg: Shade::Reset, bold: true }
}

fn piece(text: String, fg: Option<Tint>, bg: Shade, bold: bool) -> (p: Piece)
    ensures
        p.model() == (PieceV { text: text@, fg, bg, bold }),
{
    Piece { text, fg, bg, bold }
}

/// A line of one piece.
pub fn one_piece(p: Piece) -> (l: Vec<Piece>)
    ensures
        line_model(l@) == seq![p.model()],
{
    let mut l: Vec<Piece> = Vec::new();
    l.push(p);
    proof {
        assert(line_model(l@) =~= seq![p.model()]);
    }
    l
}

/// Appends a line.
pub fn push_line(out: &mut Vec<Vec<Piece>>, l: Vec<Piece>)
    ensures
        lines_model(final(out)@) == lines_model(old(out)@).push(line_model(l@)),
{
    out.push(l);
    proof {
        assert(lines_model(out@) =~= lines_model(old(out)@).push(line_model(l@)));
    }
}

// ---------------------------------------------------------------------------
// Icons
// ---------------------------------------------------------------------------

/// The icon of a node and its color: a folder for branches, a mark for
/// placeholders, and a sign of the value's kind for leaves.
pub open spec fn icon_of(n: Node) -> (Seq<char>, Tint) {
    match n {
        Node::Branch(_) => ("\u{f07b}"@, Tint::Yellow),
        Node::Phantom => ("\u{f06a}"@, Tint::Yellow),
        Node::Leaf(v) => match v {
            Json::Bool(_) => ("\u{f205}"@, Tint::Cyan),
            Json::Str(_) => ("\u{f10d}"@, Tint::Green),
            Json::Number(_) => ("\u{f292}"@, Tint::Magenta),
            Json::Null => ("\u{f071}"@, Tint::Comment),
            Json::Array(_) => ("\u{f03a}"@, Tint::Yellow),
            Json::Object(_) => ("\u{f1b2}"@, Tint::Comment),
        },
    }
}

/// The icon of a node and its color.
pub fn node_icon(node: &ConfigNode) -> (r: (String, Tint))
    ensures
        (r.0@, r.1) == icon_of(node.model()),
{
    match node {
        ConfigNode::Branch(_) => (String::from_str("\u{f07b}"), Tint::Yellow),
        ConfigNode::Phantom => (String::from_str("\u{f06a}"), Tint::Yellow),
        ConfigNode::Leaf(v) => match v {
            JsonValue::Bool(_) => (String::from_str("\u{f205}"), Tint::Cyan),
            JsonValue::Str(_) => (String::from_str("\u{f10d}"), Tint::Green),
            JsonValue::Number(_) => (String::from_str("\u{f292}"), Tint::Magenta),
            JsonValue::Null => (String::from_str("\u{f071}"), Tint::Comment),
            JsonValue::Array(_) => (String::from_str("\u{f03a}"), Tint::Yellow),
            JsonValue::Object(_) => (String::from_str("\u{f1b2}"), Tint::Comment),
        },
    }
}

/// The icon of a node followed by a space.
fn icon_piece(node: &ConfigNode, bg: Shade) -> (p: Piece)
    ensures
        p.model() == (PieceV {
            text: icon_of(node.model()).0 + " "@,
            fg: Some(icon_of(node.model()).1),
            bg,
            bold: false,
        }),
{
    let (icon, t) = node_icon(node);
    let mut text = icon;
    text.append(" ");
    Piece { text, fg: Some(t), bg, bold: false }
}

// ---------------------------------------------------------------------------
// The detail pane
// ---------------------------------------------------------------------------

/// `n` copies of `c`.
pub open spec fn repeated(c: char, n: nat) -> Seq<char> {
    Seq::new(n, |i: int| c)
}

fn repeat_char(c: char, n: usize) -> (s: String)
    ensures
        s@ == repeated(c, n as nat),
{
    let mut s = String::new();
    let mut i: usize = 0;
    while i < n
        invariant
            i <= n,
            s@ == repeated(c, i as nat),
        decreases n - i,
    {
        push_char(&mut s, c);
        proof {
            assert(s@ =~= repeated(c, (i + 1) as nat));
        }
        i += 1;
    }
    s
}

/// The divider under a section title: a line at most 30 cells wide.
pub open spec fn divider(width: u16) -> Seq<char> {
    repeated('\u{2500}', if width < 30 {
        width as nat
    } else {
        30
    })
}

/// The lines of a value, each in the value's color.
pub open spec fn value_lines(v: Json, t: Tint) -> Seq<Seq<PieceV>> {
    full_lines(v).map_values(|l: Seq<char>| seq![tinted(l, t)])
}

/// What the detail pane shows of a node's value.
pub open spec fn value_section(n: Node) -> Seq<Seq<PieceV>> {
    match n {
        Node::Leaf(v) => value_lines(v, value_tint(v)),
        Node::Branch(ch) => seq![seq![tinted(decimal(ch.len()) + " children"@, Tint::Comment)]],
        Node::Phantom => seq![seq![tinted(phantom_note(), Tint::Yellow)]],
    }
}

/// The header of the detail pane: the icon and the dotted path of the node.
pub open spec fn path_header(full_path: Seq<Seq<char>>, n: Node) -> Seq<PieceV> {
    seq![tinted(icon_of(n).0 + " "@, icon_of(n).1), bold(join_dots(full_path), name_tint(n))]
}

/// Everything the detail pane can show for a node.
pub open spec fn detail_content(full_path: Seq<Seq<char>>, n: Node, width: u16) -> Seq<Seq<PieceV>> {
    seq![
        path_header(full_path, n),
        seq![],
        seq![bold("Value"@, Tint::Fg)],
        seq![tinted(divider(width), Tint::Comment)],
    ] + value_section(n)
}

/// The `visible` lines of `content` from `scroll` on, padded with blank lines.
pub open spec fn window(content: Seq<Seq<PieceV>>, scroll: nat, visible: nat) -> Seq<Seq<PieceV>> {
    let start = if scroll <= content.len() {
        scroll
    } else {
        content.len()
    };
    let end = if start + visible <= content.len() {
        start + visible
    } else {
        content.len()
    };
    content.subrange(start as int, end as int) + Seq::new((visible - (end - start)) as nat, |i: int| Seq::<PieceV>::empty())
}

/// A node's value shown line by line.
fn push_value_lines(out: &mut Vec<Vec<Piece>>, v: &JsonValue, t: Tint)
    requires
        full_ok(v.model()),
    ensures
        lines_model(final(out)@) == lines_model(old(out)@) + value_lines(v.model(), t),
{
    let ls = format_value_full(v);
    let ghost want = value_lines(v.model(), t);
    let mut i: usize = 0;
    while i < ls.len()
        invariant
            i <= ls.len(),
            ls@.len() == full_lines(v.model()).len(),
            forall|k: int| 0 <= k < ls@.len() ==> #[trigger] ls@[k]@ == full_lines(v.model())[k],
            want == value_lines(v.model(), t),
            lines_model(out@) == lines_model(old(out)@) + want.take(i as int),
        decreases ls.len() - i,
    {
        let l = one_piece(piece(copy_string(&ls[i]), Some(t), Shade::Reset, false));
        push_line(out, l);
        proof {
            assert(want[i as int] == seq![tinted(ls@[i as int]@, t)]);
            assert(want.take(i + 1) =~= want.take(i as int).push(want[i as int]));
        }
        i += 1;
    }
    proof {
        assert(want.take(ls.len() as int) =~= want);
    }
}

fn children_line(n: usize) -> (l: Vec<Piece>)
    ensures
        line_model(l@) == seq![tinted(decimal(n as nat) + " children"@, Tint::Comment)],
{
    let mut text = String::new();
    push_decimal(&mut text, n);
    text.append(" children");
    one_piece(piece(text, Some(Tint::Comment), Shade::Reset, false))
}

fn push_value_section(out: &mut Vec<Vec<Piece>>, node: &ConfigNode)
    requires
        node.model() matches Node::Leaf(v) ==> full_ok(v),
    ensures
        lines_model(final(out)@) == lines_model(old(out)@) + value_section(node.model()),
{
    match node {
        ConfigNode::Leaf(v) => {
            let t = value_color(v);
            push_value_lines(out, v, t);
        },
        ConfigNode::Branch(children) => {
            proof {
                crate::tree::lemma_branch_model(children);
            }
            push_line(out, children_line(children.len()));
            proof {
                assert(lines_model(out@) =~= lines_model(old(out)@) + value_section(node.model()));
            }
        },
        ConfigNode::Phantom => {
            push_line(
                out,
                one_piece(piece(String::from_str("! (not serializable or value not used)"), Some(Tint::Yellow), Shade::Reset, false)),
            );
            proof {
                assert(lines_model(out@) =~= lines_model(old(out)@) + value_section(node.model()));
            }
        },
    }
}

fn header_line(full_path: &Vec<String>, node: &ConfigNode) -> (l: Vec<Piece>)
    ensures
        line_model(l@) == path_header(texts(full_path@), node.model()),
{
    let mut l: Vec<Piece> = Vec::new();
    l.push(icon_piece(node, Shade::Reset));
    l.push(piece(join_path(full_path), Some(node_name_color(node)), Shade::Reset, true));
    proof {
        assert(line_model(l@) =~= path_header(texts(full_path@), node.model()));
    }
    l
}

/// The `visible` lines of `content` from `scroll` on, padded with blank lines.
pub fn window_of(content: Vec<Vec<Piece>>, scroll: usize, visible: usize) -> (out: Vec<Vec<Piece>>)
    ensures
        lines_model(out@) == window(lines_model(content@), scroll as nat, visible as nat),
{
    let total = content.len();
    let start = if scroll <= total {
        scroll
    } else {
        total
    };
    let end = if visible <= total - start {
        start + visible
    } else {
        total
    };
    let ghost cm = lines_model(content@);
    let mut content = content;
    let mut out: Vec<Vec<Piece>> = Vec::new();
    let mut rest: Vec<Vec<Piece>> = content.split_off(start);
    proof {
        assert(lines_model(rest@) =~= cm.subrange(start as int, total as int));
    }
    let mut i: usize = 0;
    let n = end - start;
    let ghost rm = lines_model(rest@);
    while i < n
        invariant
            i <= n,
            n == end - start,
            rest@.len() == total - start - i,
            lines_model(out@) == rm.subrange(0, i as int),
            lines_model(rest@) == rm.subrange(i as int, rm.len() as int),
            rm.len() == total - start,
            n <= rm.len(),
        decreases n - i,
    {
        let ghost before = rest@;
        let l = rest.remove(0);
        proof {
            assert(lines_model(before)[0] == line_model(l@));
            assert(lines_model(before)[0] == rm.subrange(i as int, rm.len() as int)[0]);
            assert(line_model(l@) == rm[i as int]);
            assert(lines_model(rest@) =~= lines_model(before).subrange(1, lines_model(before).len() as int));
        }
        push_line(&mut out, l);
        proof {
            assert(lines_model(out@) =~= rm.subrange(0, i + 1));
            assert(lines_model(rest@) =~= rm.subrange(i + 1, rm.len() as int));
        }
        i += 1;
    }
    let ghost taken = lines_model(out@);
    while out.len() < visible
        invariant
            n <= out@.len() <= visible || (out@.len() == n && n == visible),
            lines_model(out@).subrange(0, n as int) == taken,
            taken.len() == n,
            forall|k: int| n <= k < out@.len() ==> #[trigger] lines_model(out@)[k] == Seq::<PieceV>::empty(),
        decreases visible - out.len(),
    {
        let ghost prev = lines_model(out@);
        push_line(&mut out, Vec::new());
        proof {
            assert(lines_model(out@) == prev.push(line_model(Seq::<Piece>::empty())));
            assert(line_model(Seq::<Piece>::empty()) =~= Seq::<PieceV>::empty());
            assert(lines_model(out@).subrange(0, n as int) =~= prev.subrange(0, n as int));
        }
    }
    proof {
        let w = window(cm, scroll as nat, visible as nat);
        assert(rm =~= cm.subrange(start as int, total as int));
        assert(taken =~= cm.subrange(start as int, end as int));
        assert(lines_model(out@) =~= w);
    }
    out
}

/// The lines of the detail pane for a node: its path, then its value.
pub fn render_detail_info(full_path: &Vec<String>, node: &ConfigNode, scroll: usize, inner_width: u16, visible_height: usize) -> (out: Vec<Vec<Piece>>)
    requires
        node.model() matches Node::Leaf(v) ==> full_ok(v),
    ensures
        lines_model(out@) == window(
            detail_content(texts(full_path@), node.model(), inner_width),
            scroll as nat,
            visible_height as nat,
        ),
{
    let mut content: Vec<Vec<Piece>> = Vec::new();
    push_line(&mut content, header_line(full_path, node));
    push_line(&mut content, Vec::new());
    push_line(&mut content, one_piece(piece(String::from_str("Value"), Some(Tint::Fg), Shade::Reset, true)));
    let w: usize = if inner_width < 30 {
        inner_width as usize
    } else {
        30
    };
    push_line(&mut content, one_piece(piece(repeat_char('\u{2500}', w), Some(Tint::Comment), Shade::Reset, false)));
    let ghost top = lines_model(content@);
    push_value_section(&mut content, node);
    proof {
        assert(line_model(Seq::<Piece>::empty()) =~= Seq::<PieceV>::empty());
        assert(top =~= seq![
            path_header(texts(full_path@), node.model()),
            seq![],
            seq![bold("Value"@, Tint::Fg)],
            seq![tinted(divider(inner_width), Tint::Comment)],
        ]);
        assert(lines_model(content@) =~= detail_content(texts(full_path@), node.model(), inner_width));
    }
    window_of(content, scroll, visible_height)
}

// ---------------------------------------------------------------------------
// The detail pane of a diff
// ---------------------------------------------------------------------------

/// The label of a tag and its color.
pub open spec fn tag_label(t: DiffTag) -> (Seq<char>, Tint) {
    match t {
        DiffTag::Added => ("[ADDED]"@, Tint::Green),
        DiffTag::Removed => ("[REMOVED]"@, Tint::Red),
        DiffTag::Modified => ("[MODIFIED]"@, Tint::Blue),
        DiffTag::Unchanged => ("[UNCHANGED]"@, Tint::Comment),
    }
}

/// One side of a modified node: the recorded value in the side's color;
/// else the number of children of a branch, or a note that there is no value.
pub open spec fn side_section(recorded: Option<Json>, n: Node, t: Tint, missing: Seq<char>) -> Seq<Seq<PieceV>> {
    match recorded {
        Some(v) => value_lines(v, t),
        None => match n {
            Node::Branch(ch) => seq![seq![tinted(decimal(ch.len()) + " children"@, Tint::Comment)]],
            _ => seq![seq![tinted(missing, Tint::Comment)]],
        },
    }
}

/// The node itself in a color, for an added or removed node.
pub open spec fn node_section(n: Node, t: Tint) -> Seq<Seq<PieceV>> {
    match n {
        Node::Leaf(v) => value_lines(v, t),
        Node::Branch(ch) => seq![seq![tinted(decimal(ch.len()) + " children"@, Tint::Comment)]],
        Node::Phantom => seq![seq![tinted("!"@, Tint::Yellow)]],
    }
}

/// The value recorded for `k`, if any.
pub open spec fn recorded(m: Map<Seq<char>, Json>, k: Seq<char>) -> Option<Json> {
    if m.contains_key(k) {
        Some(m[k])
    } else {
        None
    }
}

/// Everything the detail pane of a diff can show for a node: its path and
/// tag, then its old and new values as the tag calls for.
pub open spec fn diff_detail_content(full_path: Seq<Seq<char>>, n: Node, ctx: DiffContext, width: u16) -> Seq<Seq<PieceV>> {
    let dot = join_dots(full_path);
    let tag = tag_or_unchanged(tag_map(ctx.tags@), dot);
    let old_v = recorded(value_map(ctx.old_values@), dot);
    let new_v = recorded(value_map(ctx.new_values@), dot);
    let head = seq![path_header(full_path, n), seq![bold(tag_label(tag).0, tag_label(tag).1)], seq![]];
    let rule = seq![tinted(divider(width), Tint::Comment)];
    head + match tag {
        DiffTag::Modified => seq![seq![bold("Old Value"@, Tint::Red)], rule] + side_section(
            old_v,
            n,
            Tint::Red,
            "(no old value)"@,
        ) + seq![seq![], seq![bold("New Value"@, Tint::Green)], rule] + side_section(
            new_v,
            n,
            Tint::Green,
            "(no new value)"@,
        ),
        DiffTag::Added => seq![seq![bold("New Value"@, Tint::Green)], rule] + node_section(n, Tint::Green),
        DiffTag::Removed => seq![seq![bold("Old Value"@, Tint::Red)], rule] + match old_v {
            Some(v) => value_lines(v, Tint::Red),
            None => node_section(n, Tint::Red),
        },
        DiffTag::Unchanged => seq![seq![bold("Value"@, Tint::Fg)], rule] + value_section(n),
    }
}

/// The values that the detail pane of a diff shows for the node at
/// `full_path` have full renderings: the recorded old value of a modified
/// or removed node, the recorded new value of a modified one, and the
/// node's own value where it is shown in their place.
pub open spec fn diff_detail_ok(full_path: Seq<Seq<char>>, n: Node, ctx: DiffContext) -> bool {
    let dot = join_dots(full_path);
    let old_v = recorded(value_map(ctx.old_values@), dot);
    let new_v = recorded(value_map(ctx.new_values@), dot);
    let node_ok = n matches Node::Leaf(v) ==> full_ok(v);
    match tag_or_unchanged(tag_map(ctx.tags@), dot) {
        DiffTag::Modified => (old_v matches Some(v) ==> full_ok(v)) && (new_v matches Some(v) ==> full_ok(v)),
        DiffTag::Removed => match old_v {
            Some(v) => full_ok(v),
            None => node_ok,
        },
        _ => node_ok,
    }
}

fn get_value<'a>(m: &'a Vec<(String, JsonValue)>, k: &String) -> (r: Option<&'a JsonValue>)
    requires
        keys_distinct(entries_model(m@)),
    ensures
        match r {
            Some(v) => recorded(value_map(m@), k@) == Some(v.model()) && exists|i: int|
                0 <= i < m@.len() && entries_model(m@)[i].1 == v.model(),
            None => recorded(value_map(m@), k@) is None,
        },
{
    let ghost l = entries_model(m@);
    proof {
        lemma_assoc_map(l);
    }
    let mut i: usize = 0;
    while i < m.len()
        invariant
            i <= m.len(),
            l == entries_model(m@),
            keys_distinct(l),
            forall|j: int| 0 <= j < i ==> l[j].0 != k@,
        decreases m.len() - i,
    {
        if same_text(&m[i].0, k) {
            proof {
                lemma_assoc_map(l);
                assert(l[i as int].0 == k@);
                assert(l[i as int].1 == m@[i as int].1.model());
            }
            return Some(&m[i].1);
        }
        i += 1;
    }
    proof {
        lemma_assoc_map(l);
        if value_map(m@).contains_key(k@) {
            let j = choose|j: int| 0 <= j < l.len() && l[j].0 == k@;
        }
    }
    None
}

fn push_pieces(out: &mut Vec<Vec<Piece>>, text: &str, fg: Tint, is_bold: bool)
    ensures
        lines_model(final(out)@) == lines_model(old(out)@).push(seq![PieceV { text: text@, fg: Some(fg), bg: Shade::Reset, bold: is_bold }]),
{
    push_line(out, one_piece(piece(String::from_str(text), Some(fg), Shade::Reset, is_bold)));
}

fn push_node_section(out: &mut Vec<Vec<Piece>>, node: &ConfigNode, t: Tint)
    requires
        node.model() matches Node::Leaf(v) ==> full_ok(v),
    ensures
        lines_model(final(out)@) == lines_model(old(out)@) + node_section(node.model(), t),
{
    match node {
        ConfigNode::Leaf(v) => {
            push_value_lines(out, v, t);
        },
        ConfigNode::Branch(children) => {
            proof {
                crate::tree::lemma_branch_model(children);
            }
            push_line(out, children_line(children.len()));
            proof {
                assert(lines_model(out@) =~= lines_model(old(out)@) + node_section(node.model(), t));
            }
        },
        ConfigNode::Phantom => {
            push_pieces(out, "!", Tint::Yellow, false);
            proof {
                assert(lines_model(out@) =~= lines_model(old(out)@) + node_section(node.model(), t));
            }
        },
    }
}

fn push_side_section(out: &mut Vec<Vec<Piece>>, recorded_value: Option<&JsonValue>, node: &ConfigNode, t: Tint, missing: &str)
    requires
        recorded_value matches Some(v) ==> full_ok(v.model()),
    ensures
        lines_model(final(out)@) == lines_model(old(out)@) + side_section(
            match recorded_value {
                Some(v) => Some(v.model()),
                None => None,
            },
            node.model(),
            t,
            missing@,
        ),
{
    match recorded_value {
        Some(v) => {
            push_value_lines(out, v, t);
        },
        None => {
            match node {
                ConfigNode::Branch(children) => {
                    proof {
                        crate::tree::lemma_branch_model(children);
                    }
                    push_line(out, children_line(children.len()));
                },
                _ => {
                    push_pieces(out, missing, Tint::Comment, false);
                },
            }
            proof {
                assert(lines_model(out@) =~= lines_model(old(out)@) + side_section(None, node.model(), t, missing@));
            }
        },
    }
}

/// The lines of the detail pane of a diff for a node.
#[verifier::rlimit(60)]
pub fn render_diff_detail_info(
    full_path: &Vec<String>,
    node: &ConfigNode,
    diff_ctx: &DiffContext,
    scroll: usize,
    inner_width: u16,
    visible_height: usize,
) -> (out: Vec<Vec<Piece>>)
    requires
        diff_ctx.wf(),
        diff_detail_ok(texts(full_path@), node.model(), *diff_ctx),
    ensures
        lines_model(out@) == window(
            diff_detail_content(texts(full_path@), node.model(), *diff_ctx, inner_width),
            scroll as nat,
            visible_height as nat,
        ),
{
    let dot = join_path(full_path);
    let tag = match get_tag(&diff_ctx.tags, &dot) {
        Some(t) => t,
        None => DiffTag::Unchanged,
    };
    let w: usize = if inner_width < 30 {
        inner_width as usize
    } else {
        30
    };
    let mut content: Vec<Vec<Piece>> = Vec::new();
    push_line(&mut content, header_line(full_path, node));
    match tag {
        DiffTag::Added => push_pieces(&mut content, "[ADDED]", Tint::Green, true),
        DiffTag::Removed => push_pieces(&mut content, "[REMOVED]", Tint::Red, true),
        DiffTag::Modified => push_pieces(&mut content, "[MODIFIED]", Tint::Blue, true),
        DiffTag::Unchanged => push_pieces(&mut content, "[UNCHANGED]", Tint::Comment, true),
    }
    push_line(&mut content, Vec::new());
    let ghost head = lines_model(content@);
    proof {
        assert(line_model(Seq::<Piece>::empty()) =~= Seq::<PieceV>::empty());
    }
    let old_v = get_value(&diff_ctx.old_values, &dot);
    let new_v = get_value(&diff_ctx.new_values, &dot);
    match tag {
        DiffTag::Modified => {
            push_pieces(&mut content, "Old Value", Tint::Red, true);
            push_line(&mut content, one_piece(piece(repeat_char('\u{2500}', w), Some(Tint::Comment), Shade::Reset, false)));
            push_side_section(&mut content, old_v, node, Tint::Red, "(no old value)");
            push_line(&mut content, Vec::new());
            push_pieces(&mut content, "New Value", Tint::Green, true);
            push_line(&mut content, one_piece(piece(repeat_char('\u{2500}', w), Some(Tint::Comment), Shade::Reset, false)));
            push_side_section(&mut content, new_v, node, Tint::Green, "(no new value)");
        },
        DiffTag::Added => {
            push_pieces(&mut content, "New Value", Tint::Green, true);
            push_line(&mut content, one_piece(piece(repeat_char('\u{2500}', w), Some(Tint::Comment), Shade::Reset, false)));
            push_node_section(&mut content, node, Tint::Green);
        },
        DiffTag::Removed => {
            push_pieces(&mut content, "Old Value", Tint::Red, true);
            push_line(&mut content, one_piece(piece(repeat_char('\u{2500}', w), Some(Tint::Comment), Shade::Reset, false)));
            match old_v {
                Some(v) => push_value_lines(&mut content, v, Tint::Red),
                None => push_node_section(&mut content, node, Tint::Red),
            }
        },
        DiffTag::Unchanged => {
            push_pieces(&mut content, "Value", Tint::Fg, true);
            push_line(&mut content, one_piece(piece(repeat_char('\u{2500}', w), Some(Tint::Comment), Shade::Reset, false)));
            push_value_section(&mut content, node);
        },
    }
    proof {
        assert(lines_model(content@) =~= diff_detail_content(texts(full_path@), node.model(), *diff_ctx, inner_width));
    }
    window_of(content, scroll, visible_height)
}

// ---------------------------------------------------------------------------
// Rows of the lists
// ---------------------------------------------------------------------------

/// The background of a row: brighter under the cursor, by the row's diff
/// tag when it has one.
pub open spec fn row_shade(tag: Option<DiffTag>, selected: bool, highlighted: bool) -> Shade {
    if selected {
        match tag {
            Some(DiffTag::Removed) => Shade::DeleteCursor,
            Some(DiffTag::Added) => Shade::InsertCursor,
            Some(DiffTag::Modified) => Shade::ModifiedCursor,
            _ => Shade::Cursor,
        }
    } else if highlighted {
        Shade::ParentHighlight
    } else {
        match tag {
            Some(DiffTag::Removed) => Shade::DeleteLine,
            Some(DiffTag::Added) => Shade::InsertLine,
            Some(DiffTag::Modified) => Shade::ModifiedLine,
            _ => Shade::Reset,
        }
    }
}

/// The background of a row, as `row_shade` states it.
pub fn shade_of(tag: Option<DiffTag>, selected: bool, highlighted: bool) -> (s: Shade)
    ensures
        s == row_shade(tag, selected, highlighted),
{
    if selected {
        match tag {
            Some(DiffTag::Removed) => Shade::DeleteCursor,
            Some(DiffTag::Added) => Shade::InsertCursor,
            Some(DiffTag::Modified) => Shade::ModifiedCursor,
            _ => Shade::Cursor,
        }
    } else if highlighted {
        Shade::ParentHighlight
    } else {
        match tag {
            Some(DiffTag::Removed) => Shade::DeleteLine,
            Some(DiffTag::Added) => Shade::InsertLine,
            Some(DiffTag::Modified) => Shade::ModifiedLine,
            _ => Shade::Reset,
        }
    }
}

/// The short value of a leaf, cut to `max` bytes (ending in `...`) when
/// longer and when `max` leaves room for more than the dots.
pub open spec fn cut_short(short: Seq<char>, max: int) -> Seq<char> {
    if max > 3 && utf8_len(short) > max {
        byte_prefix(short, max - 3) + "..."@
    } else {
        short
    }
}

/// The cut of `cut_short` falls between two characters.
pub open spec fn cut_short_ok(short: Seq<char>, max: int) -> bool {
    max > 3 && utf8_len(short) > max ==> on_boundary(short, max - 3)
}

/// What a row shows after the name, and its color: the number of children
/// of a branch, the short value of a leaf (cut to half the width), `!` for
/// a placeholder.
pub open spec fn suffix_of(n: Node, text_width: int) -> (Seq<char>, Tint) {
    match n {
        Node::Branch(ch) => ("{"@ + decimal(ch.len()) + "}"@, Tint::Comment),
        Node::Leaf(v) => (cut_short(short_text(v), text_width / 2), value_tint(v)),
        Node::Phantom => ("!"@, Tint::Yellow),
    }
}

/// The suffix of a row can be made.
pub open spec fn suffix_ok(n: Node, text_width: int) -> bool {
    match n {
        Node::Leaf(v) => short_ok(v) && cut_short_ok(short_text(v), text_width / 2),
        _ => true,
    }
}

/// The name cut to leave room for the suffix, when there is room for more
/// than the dots.
pub open spec fn cut_name(name: Seq<char>, suffix_len: int, text_width: int) -> Seq<char> {
    let max_name = if text_width >= suffix_len + 4 {
        text_width - (suffix_len + 4)
    } else {
        0
    };
    if max_name > 3 {
        byte_prefix(name, max_name) + "..."@
    } else {
        name
    }
}

/// The name must be cut: it is longer than 3 bytes and, with a space and
/// the suffix, wider than the row.
pub open spec fn name_too_long(name: Seq<char>, suffix_len: int, text_width: int) -> bool {
    utf8_len(name) + 1 + suffix_len > text_width && utf8_len(name) > 3
}

/// The cut of `cut_name` falls between two characters.
pub open spec fn cut_name_ok(name: Seq<char>, suffix_len: int, text_width: int) -> bool {
    let max_name = if text_width >= suffix_len + 4 {
        text_width - (suffix_len + 4)
    } else {
        0
    };
    max_name > 3 ==> on_boundary(name, max_name)
}

/// The spaces between name and suffix: enough to push the suffix to the
/// right edge, or one.
pub open spec fn padding_of(name_len: int, suffix_len: int, text_width: int) -> int {
    if name_len + suffix_len + 1 < text_width {
        text_width - name_len - suffix_len
    } else {
        1
    }
}

/// A row of the browse panes.
pub open spec fn pane_row(name: Seq<char>, n: Node, tag: Option<DiffTag>, selected: bool, highlighted: bool, text_width: int) -> Seq<PieceV> {
    let bg = row_shade(tag, selected, highlighted);
    let (suffix, suffix_tint) = suffix_of(n, text_width);
    let sl = utf8_len(suffix) as int;
    let shown = if name_too_long(name, sl, text_width) {
        cut_name(name, sl, text_width)
    } else {
        name
    };
    let pad = padding_of(utf8_len(shown) as int, sl, text_width);
    seq![
        PieceV { text: icon_of(n).0 + " "@, fg: Some(icon_of(n).1), bg, bold: false },
        PieceV { text: shown, fg: Some(name_tint(n)), bg, bold: selected || highlighted || (n is Branch) },
        PieceV { text: repeated(' ', pad as nat), fg: None, bg, bold: false },
        PieceV { text: suffix, fg: Some(suffix_tint), bg, bold: false },
    ]
}

/// The row of the browse panes can be made.
pub open spec fn pane_row_ok(name: Seq<char>, n: Node, text_width: int) -> bool {
    let sl = utf8_len(suffix_of(n, text_width).0) as int;
    &&& suffix_ok(n, text_width)
    &&& (name_too_long(name, sl, text_width) ==> cut_name_ok(name, sl, text_width))
}

fn cut_text(s: &String, n: usize) -> (out: String)
    requires
        n <= usize::MAX - 4,
    ensures
        out@ == byte_prefix(s@, n as int) + "..."@,
{
    let cs = chars_of(s.as_str());
    let p = prefix_bytes(&cs, n);
    let mut out = string_of(&p);
    out.append("...");
    out
}

fn suffix_for(node: &ConfigNode, text_width: usize) -> (r: (String, Tint))
    requires
        suffix_ok(node.model(), text_width as int),
    ensures
        (r.0@, r.1) == suffix_of(node.model(), text_width as int),
{
    match node {
        ConfigNode::Branch(ch) => {
            proof {
                crate::tree::lemma_branch_model(ch);
            }
            let mut t = String::new();
            t.append("{");
            push_decimal(&mut t, ch.len());
            t.append("}");
            (t, Tint::Comment)
        },
        ConfigNode::Leaf(v) => {
            let short = format_value_short(v);
            let max_suffix = text_width / 2;
            let text = if max_suffix > 3 && byte_len(short.as_str()) > max_suffix {
                cut_text(&short, max_suffix - 3)
            } else {
                short
            };
            (text, value_color(v))
        },
        ConfigNode::Phantom => (String::from_str("!"), Tint::Yellow),
    }
}

fn wider_than(a: usize, b: usize, limit: usize) -> (r: bool)
    ensures
        r == (a + 1 + b > limit),
{
    match a.checked_add(1) {
        Some(x) => match x.checked_add(b) {
            Some(y) => y > limit,
            None => true,
        },
        None => true,
    }
}

fn pad_for(name_len: usize, suffix_len: usize, text_width: usize) -> (p: usize)
    ensures
        p == padding_of(name_len as int, suffix_len as int, text_width as int),
{
    if !wider_than(name_len, suffix_len, text_width) && name_len + suffix_len + 1 < text_width {
        text_width - name_len - suffix_len
    } else {
        1
    }
}

fn cut_name_exec(name: &String, suffix_len: usize, text_width: usize) -> (out: String)
    ensures
        out@ == cut_name(name@, suffix_len as int, text_width as int),
{
    let max_name = if suffix_len <= usize::MAX - 4 && text_width >= suffix_len + 4 {
        text_width - (suffix_len + 4)
    } else {
        0
    };
    proof {
        if !(suffix_len <= usize::MAX - 4) {
            assert(text_width < suffix_len + 4);
        }
    }
    if max_name > 3 {
        cut_text(name, max_name)
    } else {
        proof {
            assert(max_name <= text_width);
        }
        copy_string(name)
    }
}

/// One row of a browse pane.
pub fn render_pane_row(
    name: &String,
    node: &ConfigNode,
    tag: Option<DiffTag>,
    selected: bool,
    highlighted: bool,
    text_width: usize,
) -> (row: Vec<Piece>)
    requires
        pane_row_ok(name@, node.model(), text_width as int),
    ensures
        line_model(row@) == pane_row(name@, node.model(), tag, selected, highlighted, text_width as int),
{
    let bg = shade_of(tag, selected, highlighted);
    let (suffix, suffix_tint) = suffix_for(node, text_width);
    let sl = byte_len(suffix.as_str());
    let nl = byte_len(name.as_str());
    let shown = if wider_than(nl, sl, text_width) && nl > 3 {
        cut_name_exec(name, sl, text_width)
    } else {
        copy_string(name)
    };
    let pad = pad_for(byte_len(shown.as_str()), sl, text_width);
    let is_branch = match node {
        ConfigNode::Branch(_) => true,
        _ => false,
    };
    let mut row: Vec<Piece> = Vec::new();
    row.push(icon_piece(node, bg));
    row.push(piece(shown, Some(node_name_color(node)), bg, selected || highlighted || is_branch));
    row.push(piece(repeat_char(' ', pad), None, bg, false));
    row.push(piece(suffix, Some(suffix_tint), bg, false));
    proof {
        assert(line_model(row@) =~= pane_row(name@, node.model(), tag, selected, highlighted, text_width as int));
    }
    row
}

// ---------------------------------------------------------------------------
// Lists
// ---------------------------------------------------------------------------

/// `n` blank lines.
pub open spec fn blanks(n: nat) -> Seq<Seq<PieceV>> {
    Seq::new(n, |i: int| Seq::<PieceV>::empty())
}

/// The end of the rows shown from `scroll`: at most `visible` rows, and no
/// further than the list.
pub open spec fn shown_end(len: nat, scroll: nat, visible: nat) -> nat {
    if scroll + visible <= len {
        scroll + visible
    } else {
        len
    }
}

/// The tag a diff shows for an entry of the level at `prefix`.
pub open spec fn entry_tag(tags: Option<Map<Seq<char>, DiffTag>>, prefix: Seq<Seq<char>>, name: Seq<char>, n: Node) -> Option<DiffTag> {
    match tags {
        Some(t) => Some(shown_tag(t, join_dots(prefix.push(name)), n)),
        None => None,
    }
}

/// The rows of a browse pane: those of the window from `scroll`, then blank
/// lines up to `visible`; only blank lines when the pane is narrower than 4.
pub open spec fn pane_list(
    lv: Seq<(Seq<char>, Node)>,
    highlight: Option<Seq<char>>,
    cursor: Option<usize>,
    scroll: nat,
    visible: nat,
    width: u16,
    tags: Option<Map<Seq<char>, DiffTag>>,
    prefix: Seq<Seq<char>>,
) -> Seq<Seq<PieceV>> {
    if width < 4 {
        blanks(visible)
    } else {
        let tw = width - 2;
        let end = shown_end(lv.len(), scroll, visible);
        let n = if scroll <= end {
            (end - scroll) as nat
        } else {
            0
        };
        Seq::new(
            n,
            |k: int|
                pane_row(
                    lv[scroll + k].0,
                    lv[scroll + k].1,
                    entry_tag(tags, prefix, lv[scroll + k].0, lv[scroll + k].1),
                    cursor == Some((scroll + k) as usize),
                    highlight == Some(lv[scroll + k].0),
                    tw,
                ),
        ) + blanks((visible - n) as nat)
    }
}

/// Every row that the pane shows can be made.
pub open spec fn pane_list_ok(lv: Seq<(Seq<char>, Node)>, scroll: nat, visible: nat, width: u16) -> bool {
    width >= 4 ==> forall|i: int|
        scroll <= i < shown_end(lv.len(), scroll, visible) ==> pane_row_ok(#[trigger] lv[i].0, lv[i].1, width - 2)
}

/// Appends blank lines until there are `visible`.
pub fn pad_blank(out: &mut Vec<Vec<Piece>>, visible: usize)
    ensures
        lines_model(final(out)@) == lines_model(old(out)@) + blanks(
            if old(out)@.len() <= visible {
                (visible - old(out)@.len()) as nat
            } else {
                0
            },
        ),
{
    let ghost start = lines_model(out@);
    let n0 = out.len();
    while out.len() < visible
        invariant
            n0 <= out@.len(),
            n0 == old(out)@.len(),
            out@.len() <= visible || out@.len() == n0,
            lines_model(out@) == start + blanks((out@.len() - n0) as nat),
        decreases visible - out.len(),
    {
        let ghost prev = lines_model(out@);
        push_line(out, Vec::new());
        proof {
            assert(line_model(Seq::<Piece>::empty()) =~= Seq::<PieceV>::empty());
            assert(lines_model(out@) =~= start + blanks((out@.len() - n0) as nat));
        }
    }
    proof {
        assert(lines_model(out@) =~= start + blanks(
            if n0 <= visible {
                (visible - n0) as nat
            } else {
                0
            },
        ));
    }
}

fn same_name(a: Option<&String>, b: &String) -> (r: bool)
    ensures
        r == (match a {
            Some(x) => Some(x@),
            None => None,
        } == Some(b@)),
{
    match a {
        Some(x) => same_text(x, b),
        None => false,
    }
}

/// The lines of a browse pane.
pub fn render_pane_list(
    children: &Vec<(String, ConfigNode)>,
    highlight_name: Option<&String>,
    cursor_idx: Option<usize>,
    scroll: usize,
    visible_height: usize,
    inner_width: u16,
    diff_ctx: Option<&DiffContext>,
    path_prefix: &Vec<String>,
) -> (lines: Vec<Vec<Piece>>)
    requires
        scroll + visible_height <= usize::MAX,
        pane_list_ok(level(children@), scroll as nat, visible_height as nat, inner_width),
        diff_ctx matches Some(c) ==> c.wf(),
    ensures
        lines_model(lines@) == pane_list(
            level(children@),
            match highlight_name {
                Some(x) => Some(x@),
                None => None,
            },
            cursor_idx,
            scroll as nat,
            visible_height as nat,
            inner_width,
            match diff_ctx {
                Some(c) => Some(tag_map(c.tags@)),
                None => None,
            },
            texts(path_prefix@),
        ),
{
    let ghost lv = level(children@);
    let ghost hl = match highlight_name {
        Some(x) => Some(x@),
        None => None,
    };
    let ghost tags = match diff_ctx {
        Some(c) => Some(tag_map(c.tags@)),
        None => None,
    };
    let mut lines: Vec<Vec<Piece>> = Vec::new();
    if inner_width < 4 {
        pad_blank(&mut lines, visible_height);
        proof {
            assert(lines_model(lines@) =~= blanks(visible_height as nat));
        }
        return lines;
    }
    let tw: usize = (inner_width - 2) as usize;
    let end = if scroll + visible_height <= children.len() {
        scroll + visible_height
    } else {
        children.len()
    };
    let mut i = scroll;
    let ghost want = pane_list(lv, hl, cursor_idx, scroll as nat, visible_height as nat, inner_width, tags, texts(path_prefix@));
    let ghost n: nat = if scroll <= end {
        (end - scroll) as nat
    } else {
        0
    };
    while i < end
        invariant
            scroll <= i,
            i <= end || end < scroll,
            end < scroll ==> i == scroll,
            end == shown_end(children@.len(), scroll as nat, visible_height as nat),
            lv == level(children@),
            tw == inner_width - 2,
            inner_width >= 4,
            pane_list_ok(lv, scroll as nat, visible_height as nat, inner_width),
            diff_ctx matches Some(c) ==> c.wf(),
            tags == (match diff_ctx {
                Some(c) => Some(tag_map(c.tags@)),
                None => None,
            }),
            hl == (match highlight_name {
                Some(x) => Some(x@),
                None => None,
            }),
            lines@.len() == i - scroll,
            forall|k: int|
                0 <= k < i - scroll ==> #[trigger] lines_model(lines@)[k] == pane_row(
                    lv[scroll + k].0,
                    lv[scroll + k].1,
                    entry_tag(tags, texts(path_prefix@), lv[scroll + k].0, lv[scroll + k].1),
                    cursor_idx == Some((scroll + k) as usize),
                    hl == Some(lv[scroll + k].0),
                    tw as int,
                ),
        decreases end - i,
    {
        let name = &children[i].0;
        let node = &children[i].1;
        proof {
            assert(lv[i as int] == (name@, node.model()));
            assert(pane_row_ok(lv[i as int].0, lv[i as int].1, inner_width - 2));
        }
        let tag = match diff_ctx {
            Some(ctx) => Some(get_diff_tag(ctx, path_prefix, name, node)),
            None => None,
        };
        let selected = match cursor_idx {
            Some(c) => c == i,
            None => false,
        };
        let highlighted = same_name(highlight_name, name);
        let row = render_pane_row(name, node, tag, selected, highlighted, tw);
        let ghost prev = lines_model(lines@);
        let ghost prev_len = lines@.len();
        push_line(&mut lines, row);
        proof {
            assert(lines_model(lines@).len() == lines@.len());
            assert(lines@.len() == prev_len + 1);
            assert(lines_model(lines@)[i - scroll] == line_model(row@));
            assert forall|k: int| 0 <= k < i + 1 - scroll implies #[trigger] lines_model(lines@)[k] == pane_row(
                lv[scroll + k].0,
                lv[scroll + k].1,
                entry_tag(tags, texts(path_prefix@), lv[scroll + k].0, lv[scroll + k].1),
                cursor_idx == Some((scroll + k) as usize),
                hl == Some(lv[scroll + k].0),
                tw as int,
            ) by {
                if k < i - scroll {
                    assert(lines_model(lines@)[k] == prev[k]);
                }
            }
        }
        i += 1;
    }
    let ghost rows = lines_model(lines@);
    pad_blank(&mut lines, visible_height);
    proof {
        assert(rows.len() == n);
        let head = Seq::new(
            n,
            |k: int|
                pane_row(
                    lv[scroll + k].0,
                    lv[scroll + k].1,
                    entry_tag(tags, texts(path_prefix@), lv[scroll + k].0, lv[scroll + k].1),
                    cursor_idx == Some((scroll + k) as usize),
                    hl == Some(lv[scroll + k].0),
                    tw as int,
                ),
        );
        assert(rows =~= head);
        assert(lines_model(lines@) =~= want);
    }
    lines
}

/// A row of a dependency pane for the dotted path `dep`, which leads to
/// `node` in the tree when it exists there.
pub open spec fn dep_row(dep: Seq<char>, node: Option<Node>, tag: Option<DiffTag>, selected: bool, text_width: int) -> Seq<PieceV> {
    let bg = row_shade(tag, selected, false);
    let (icon, icon_tint, name_t) = match node {
        Some(n) => (icon_of(n).0, icon_of(n).1, name_tint(n)),
        None => ("\u{f1b2}"@, Tint::Comment, Tint::Comment),
    };
    let (suffix, suffix_fg) = match node {
        Some(n) => (suffix_of(n, text_width).0, Some(suffix_of(n, text_width).1)),
        None => (Seq::<char>::empty(), None::<Tint>),
    };
    let sl = utf8_len(suffix) as int;
    let shown = if text_width > 4 && name_too_long(dep, sl, text_width) {
        cut_name(dep, sl, text_width)
    } else {
        dep
    };
    let nl = utf8_len(shown) as int;
    let pad = if sl > 0 && nl + sl + 1 < text_width {
        text_width - nl - sl
    } else if sl > 0 {
        1
    } else {
        0
    };
    let base = seq![
        PieceV { text: icon + " "@, fg: Some(icon_tint), bg, bold: false },
        PieceV { text: shown, fg: Some(name_t), bg, bold: selected },
    ];
    if sl > 0 {
        base + seq![
            PieceV { text: repeated(' ', pad as nat), fg: None, bg, bold: false },
            PieceV { text: suffix, fg: suffix_fg, bg, bold: false },
        ]
    } else {
        base
    }
}

/// The row of a dependency pane can be made.
pub open spec fn dep_row_ok(dep: Seq<char>, node: Option<Node>, text_width: int) -> bool {
    let sl = match node {
        Some(n) => utf8_len(suffix_of(n, text_width).0) as int,
        None => 0,
    };
    &&& node matches Some(n) ==> suffix_ok(n, text_width)
    &&& (text_width > 4 && name_too_long(dep, sl, text_width) ==> cut_name_ok(dep, sl, text_width))
}

/// One row of a dependency pane.
pub fn render_dep_row(dep: &String, node: Option<&ConfigNode>, tag: Option<DiffTag>, selected: bool, text_width: usize) -> (row: Vec<Piece>)
    requires
        dep_row_ok(
            dep@,
            match node {
                Some(n) => Some(n.model()),
                None => None,
            },
            text_width as int,
        ),
    ensures
        line_model(row@) == dep_row(
            dep@,
            match node {
                Some(n) => Some(n.model()),
                None => None,
            },
            tag,
            selected,
            text_width as int,
        ),
{
    let bg = shade_of(tag, selected, false);
    let (icon, icon_tint, name_t) = match node {
        Some(n) => {
            let (ic, t) = node_icon(n);
            (ic, t, node_name_color(n))
        },
        None => (String::from_str("\u{f1b2}"), Tint::Comment, Tint::Comment),
    };
    let (suffix, suffix_fg) = match node {
        Some(n) => {
            let (text, t) = suffix_for(n, text_width);
            (text, Some(t))
        },
        None => (String::new(), None),
    };
    let sl = byte_len(suffix.as_str());
    let dl = byte_len(dep.as_str());
    let shown = if text_width > 4 && wider_than(dl, sl, text_width) && dl > 3 {
        cut_name_exec(dep, sl, text_width)
    } else {
        copy_string(dep)
    };
    let nl = byte_len(shown.as_str());
    let pad = if sl > 0 && !wider_than(nl, sl, text_width) && nl + sl + 1 < text_width {
        text_width - nl - sl
    } else if sl > 0 {
        1
    } else {
        0
    };
    let mut icon_text = icon;
    icon_text.append(" ");
    let mut row: Vec<Piece> = Vec::new();
    row.push(piece(icon_text, Some(icon_tint), bg, false));
    row.push(piece(shown, Some(name_t), bg, selected));
    if sl > 0 {
        row.push(piece(repeat_char(' ', pad), None, bg, false));
        row.push(piece(suffix, suffix_fg, bg, false));
    }
    proof {
        assert(line_model(row@) =~= dep_row(
            dep@,
            match node {
                Some(n) => Some(n.model()),
                None => None,
            },
            tag,
            selected,
            text_width as int,
        ));
    }
    row
}

/// The node a dotted path leads to.
pub open spec fn dep_node(lv: Seq<(Seq<char>, Node)>, dep: Seq<char>) -> Option<Node> {
    lookup(lv, split_dots(dep))
}

/// The rows of a dependency pane: `  (none)` for an empty list (with blank
/// lines up to `visible`), else the rows of the window from `scroll`, each
/// with its tag when tags are given, then blank lines up to `visible`.
pub open spec fn dep_list(
    items: Seq<Seq<char>>,
    cursor: Option<usize>,
    scroll: nat,
    visible: nat,
    width: u16,
    lv: Seq<(Seq<char>, Node)>,
    tags: Option<Seq<DiffTag>>,
) -> Seq<Seq<PieceV>> {
    if items.len() == 0 {
        seq![seq![tinted("  (none)"@, Tint::Comment)]] + blanks(
            if visible >= 1 {
                (visible - 1) as nat
            } else {
                0
            },
        )
    } else {
        let tw = if width >= 2 {
            width - 2
        } else {
            0
        };
        let end = shown_end(items.len(), scroll, visible);
        let n = if scroll <= end {
            (end - scroll) as nat
        } else {
            0
        };
        Seq::new(
            n,
            |k: int|
                dep_row(
                    items[scroll + k],
                    dep_node(lv, items[scroll + k]),
                    match tags {
                        Some(t) => if 0 <= scroll + k < t.len() {
                            Some(t[scroll + k])
                        } else {
                            None
                        },
                        None => None,
                    },
                    cursor == Some((scroll + k) as usize),
                    tw,
                ),
        ) + blanks((visible - n) as nat)
    }
}

/// Every row that the dependency pane shows can be made.
pub open spec fn dep_list_ok(items: Seq<Seq<char>>, scroll: nat, visible: nat, width: u16, lv: Seq<(Seq<char>, Node)>) -> bool {
    forall|i: int|
        scroll <= i < shown_end(items.len(), scroll, visible) ==> dep_row_ok(
            #[trigger] items[i],
            dep_node(lv, items[i]),
            if width >= 2 {
                width - 2
            } else {
                0
            },
        )
}

/// The lines of a dependency pane.
pub fn render_dep_list(
    items: &Vec<String>,
    cursor: Option<usize>,
    scroll: usize,
    visible_height: usize,
    inner_width: u16,
    root_children: &Vec<(String, ConfigNode)>,
    diff_dep_tags: Option<&Vec<DiffTag>>,
) -> (lines: Vec<Vec<Piece>>)
    requires
        scroll + visible_height <= usize::MAX,
        dep_list_ok(texts(items@), scroll as nat, visible_height as nat, inner_width, level(root_children@)),
    ensures
        lines_model(lines@) == dep_list(
            texts(items@),
            cursor,
            scroll as nat,
            visible_height as nat,
            inner_width,
            level(root_children@),
            match diff_dep_tags {
                Some(t) => Some(t@),
                None => None,
            },
        ),
{
    let ghost lv = level(root_children@);
    let ghost tags = match diff_dep_tags {
        Some(t) => Some(t@),
        None => None,
    };
    let mut lines: Vec<Vec<Piece>> = Vec::new();
    if items.len() == 0 {
        push_line(&mut lines, one_piece(piece(String::from_str("  (none)"), Some(Tint::Comment), Shade::Reset, false)));
        pad_blank(&mut lines, visible_height);
        proof {
            assert(lines_model(lines@) =~= dep_list(texts(items@), cursor, scroll as nat, visible_height as nat, inner_width, lv, tags));
        }
        return lines;
    }
    let tw: usize = if inner_width >= 2 {
        (inner_width - 2) as usize
    } else {
        0
    };
    let end = if scroll + visible_height <= items.len() {
        scroll + visible_height
    } else {
        items.len()
    };
    let ghost n: nat = if scroll <= end {
        (end - scroll) as nat
    } else {
        0
    };
    let mut i = scroll;
    while i < end
        invariant
            scroll <= i,
            i <= end || end < scroll,
            end < scroll ==> i == scroll,
            end == shown_end(items@.len(), scroll as nat, visible_height as nat),
            lv == level(root_children@),
            tw == (if inner_width >= 2 {
                inner_width - 2
            } else {
                0
            }),
            dep_list_ok(texts(items@), scroll as nat, visible_height as nat, inner_width, lv),
            tags == (match diff_dep_tags {
                Some(t) => Some(t@),
                None => None,
            }),
            lines@.len() == i - scroll,
            forall|k: int|
                0 <= k < i - scroll ==> #[trigger] lines_model(lines@)[k] == dep_row(
                    texts(items@)[scroll + k],
                    dep_node(lv, texts(items@)[scroll + k]),
                    match tags {
                        Some(t) => if 0 <= scroll + k < t.len() {
                            Some(t[scroll + k])
                        } else {
                            None
                        },
                        None => None,
                    },
                    cursor == Some((scroll + k) as usize),
                    tw as int,
                ),
        decreases end - i,
    {
        let dep = &items[i];
        let segs = split_path(dep.as_str());
        let node = lookup_node(root_children, &segs);
        let tag = match diff_dep_tags {
            Some(t) => if i < t.len() {
                Some(t[i])
            } else {
                None
            },
            None => None,
        };
        let selected = match cursor {
            Some(c) => c == i,
            None => false,
        };
        proof {
            assert(texts(items@)[i as int] == dep@);
            assert(dep_row_ok(texts(items@)[i as int], dep_node(lv, texts(items@)[i as int]), tw as int));
        }
        let row = render_dep_row(dep, node, tag, selected, tw);
        let ghost prev = lines_model(lines@);
        let ghost prev_len = lines@.len();
        push_line(&mut lines, row);
        proof {
            assert(lines_model(lines@).len() == lines@.len());
            assert(lines@.len() == prev_len + 1);
            assert(lines_model(lines@)[i - scroll] == line_model(row@));
            assert forall|k: int| 0 <= k < i + 1 - scroll implies #[trigger] lines_model(lines@)[k] == dep_row(
                texts(items@)[scroll + k],
                dep_node(lv, texts(items@)[scroll + k]),
                match tags {
                    Some(t) => if 0 <= scroll + k < t.len() {
                        Some(t[scroll + k])
                    } else {
                        None
                    },
                    None => None,
                },
                cursor == Some((scroll + k) as usize),
                tw as int,
            ) by {
                if k < i - scroll {
                    assert(lines_model(lines@)[k] == prev[k]);
                }
            }
        }
        i += 1;
    }
    let ghost rows = lines_model(lines@);
    pad_blank(&mut lines, visible_height);
    proof {
        assert(rows.len() == n);
        assert(lines_model(lines@) =~= dep_list(texts(items@), cursor, scroll as nat, visible_height as nat, inner_width, lv, tags));
    }
    lines
}

// ---------------------------------------------------------------------------
// Whether the rows can be made
// ---------------------------------------------------------------------------

/// Whether byte `n` of `s` falls between two characters.
pub fn boundary_at(s: &String, n: usize) -> (r: bool)
    requires
        n <= usize::MAX - 4,
    ensures
        r == on_boundary(s@, n as int),
{
    let cs = chars_of(s.as_str());
    let p = prefix_bytes(&cs, n);
    let ps = string_of(&p);
    byte_len(ps.as_str()) == n
}

fn suffix_fits(node: &ConfigNode, text_width: usize) -> (r: bool)
    ensures
        r == suffix_ok(node.model(), text_width as int),
{
    match node {
        ConfigNode::Leaf(v) => {
            if !short_fits(v) {
                return false;
            }
            let short = format_value_short(v);
            let max = text_width / 2;
            if max > 3 && byte_len(short.as_str()) > max {
                boundary_at(&short, max - 3)
            } else {
                true
            }
        },
        _ => true,
    }
}

fn name_fits(name: &String, sl: usize, text_width: usize) -> (r: bool)
    ensures
        r == cut_name_ok(name@, sl as int, text_width as int),
{
    let max_name = if sl <= usize::MAX - 4 && text_width >= sl + 4 {
        text_width - (sl + 4)
    } else {
        0
    };
    proof {
        if !(sl <= usize::MAX - 4) {
            assert(text_width < sl + 4);
        }
    }
    if max_name > 3 {
        boundary_at(name, max_name)
    } else {
        true
    }
}

/// Whether a row of a browse pane can be made.
pub fn pane_row_fits(name: &String, node: &ConfigNode, text_width: usize) -> (r: bool)
    ensures
        r == pane_row_ok(name@, node.model(), text_width as int),
{
    if !suffix_fits(node, text_width) {
        return false;
    }
    let (suffix, _) = suffix_for(node, text_width);
    let sl = byte_len(suffix.as_str());
    let nl = byte_len(name.as_str());
    if wider_than(nl, sl, text_width) && nl > 3 {
        name_fits(name, sl, text_width)
    } else {
        true
    }
}

/// Whether every row that a browse pane shows can be made.
pub fn pane_list_fits(children: &Vec<(String, ConfigNode)>, scroll: usize, visible_height: usize, inner_width: u16) -> (r: bool)
    requires
        scroll + visible_height <= usize::MAX,
    ensures
        r == pane_list_ok(level(children@), scroll as nat, visible_height as nat, inner_width),
{
    if inner_width < 4 {
        return true;
    }
    let tw: usize = (inner_width - 2) as usize;
    let end = if scroll + visible_height <= children.len() {
        scroll + visible_height
    } else {
        children.len()
    };
    let ghost lv = level(children@);
    let mut i = scroll;
    while i < end
        invariant
            scroll <= i,
            end == shown_end(children@.len(), scroll as nat, visible_height as nat),
            lv == level(children@),
            inner_width >= 4,
            tw == inner_width - 2,
            forall|k: int| scroll <= k < i && k < end ==> pane_row_ok(#[trigger] lv[k].0, lv[k].1, tw as int),
        decreases end - i,
    {
        proof {
            assert(lv[i as int] == (children@[i as int].0@, children@[i as int].1.model()));
        }
        if !pane_row_fits(&children[i].0, &children[i].1, tw) {
            proof {
                let k = i as int;
                assert(scroll <= k < shown_end(lv.len(), scroll as nat, visible_height as nat));
                assert(!pane_row_ok(lv[k].0, lv[k].1, inner_width - 2));
            }
            return false;
        }
        i += 1;
    }
    true
}

/// Whether a row of a dependency pane can be made.
pub fn dep_row_fits(dep: &String, node: Option<&ConfigNode>, text_width: usize) -> (r: bool)
    ensures
        r == dep_row_ok(
            dep@,
            match node {
                Some(n) => Some(n.model()),
                None => None,
            },
            text_width as int,
        ),
{
    let sl = match node {
        Some(n) => {
            if !suffix_fits(n, text_width) {
                return false;
            }
            let (suffix, _) = suffix_for(n, text_width);
            byte_len(suffix.as_str())
        },
        None => 0,
    };
    let dl = byte_len(dep.as_str());
    if text_width > 4 && wider_than(dl, sl, text_width) && dl > 3 {
        name_fits(dep, sl, text_width)
    } else {
        true
    }
}

/// Whether every row that a dependency pane shows can be made.
pub fn dep_list_fits(items: &Vec<String>, scroll: usize, visible_height: usize, inner_width: u16, root_children: &Vec<(String, ConfigNode)>) -> (r: bool)
    requires
        scroll + visible_height <= usize::MAX,
    ensures
        r == dep_list_ok(texts(items@), scroll as nat, visible_height as nat, inner_width, level(root_children@)),
{
    let tw: usize = if inner_width >= 2 {
        (inner_width - 2) as usize
    } else {
        0
    };
    let end = if scroll + visible_height <= items.len() {
        scroll + visible_height
    } else {
        items.len()
    };
    let ghost lv = level(root_children@);
    let mut i = scroll;
    while i < end
        invariant
            scroll <= i,
            end == shown_end(items@.len(), scroll as nat, visible_height as nat),
            lv == level(root_children@),
            tw == (if inner_width >= 2 {
                inner_width - 2
            } else {
                0
            }),
            forall|k: int|
                scroll <= k < i && k < end ==> dep_row_ok(#[trigger] texts(items@)[k], dep_node(lv, texts(items@)[k]), tw as int),
        decreases end - i,
    {
        let segs = split_path(items[i].as_str());
        let node = lookup_node(root_children, &segs);
        proof {
            assert(texts(items@)[i as int] == items@[i as int]@);
        }
        if !dep_row_fits(&items[i], node, tw) {
            return false;
        }
        i += 1;
    }
    true
}

} // verus!
