use vstd::prelude::*;

use crate::browse::{Rect, Tint};
use crate::diff::{collapsed_from, lemma_collapsed_real_in_range, rows_of, DiffLine, DisplayLine, Row};
use crate::frame::{panels_model, push_panel, push_piece, short_of_room, Panel, PanelV};
use crate::panes::{line_model, lines_model, push_line, Piece, PieceV, Shade};
use crate::text::{copy_string, same_text};
use crate::theme::{raw, split_area, split_ok, Constraint};
use crate::values::{decimal, push_decimal};

verus! {

// ---------------------------------------------------------------------------
// The side-by-side viewer's frame
// ---------------------------------------------------------------------------

/// The backgrounds of the two sides of a row: red where the left side went,
/// green where the right side came, plain where both sides are the same.
pub open spec fn side_shades(r: Row) -> (Shade, Shade) {
    match (r.left, r.right) {
        (Some(l), Some(rt)) => if l != rt {
            (Shade::DeleteLine, Shade::InsertLine)
        } else {
            (Shade::Reset, Shade::Reset)
        },
        (Some(_), None) => (Shade::DeleteLine, Shade::Reset),
        (None, Some(_)) => (Shade::Reset, Shade::InsertLine),
        (None, None) => (Shade::Reset, Shade::Reset),
    }
}

/// The text of a side, empty where the side has no line.
pub open spec fn side_text(o: Option<Seq<char>>) -> Seq<char> {
    match o {
        Some(t) => t,
        None => seq![],
    }
}

/// The two lines that show a row.
pub open spec fn row_lines(r: Row) -> (Seq<PieceV>, Seq<PieceV>) {
    (
        seq![PieceV { text: side_text(r.left), fg: None, bg: side_shades(r).0, bold: false }],
        seq![PieceV { text: side_text(r.right), fg: None, bg: side_shades(r).1, bold: false }],
    )
}

/// The note that stands for a run of hidden rows.
pub open spec fn hidden_note(count: usize) -> PieceV {
    PieceV { text: "--- "@ + decimal(count as nat) + " lines hidden ---"@, fg: Some(Tint::Faint), bg: Shade::Reset, bold: false }
}

/// The two lines at position `k` of the current view.
pub open spec fn shown_lines(rows: Seq<Row>, view: Seq<DisplayLine>, collapsed: bool, k: int) -> (Seq<PieceV>, Seq<PieceV>) {
    if collapsed {
        match view[k] {
            DisplayLine::Real(i) => row_lines(rows[i as int]),
            DisplayLine::Separator(c) => (seq![hidden_note(c)], seq![hidden_note(c)]),
        }
    } else {
        row_lines(rows[k])
    }
}

/// The number of lines of the current view.
pub open spec fn diff_total(rows: Seq<Row>, view: Seq<DisplayLine>, collapsed: bool) -> nat {
    if collapsed {
        view.len()
    } else {
        rows.len()
    }
}

/// The end of the window of `visible` lines from `scroll`.
pub open spec fn window_end(total: nat, scroll: usize, visible: nat) -> nat {
    if scroll + visible <= total {
        (scroll + visible) as nat
    } else {
        total
    }
}

/// Bold text in the terminal's own color.
pub open spec fn strong(text: Seq<char>) -> PieceV {
    PieceV { text, fg: None, bg: Shade::Reset, bold: true }
}

/// The viewer's footer: its keys, and the window's first and last lines
/// among all of them.
pub open spec fn diff_footer(collapsed: bool, scroll: usize, end: nat, total: nat) -> Seq<PieceV> {
    seq![
        strong(" j/k"@),
        raw(":scroll "@),
        strong("n/N"@),
        raw(":hunk "@),
        strong("g/G"@),
        raw(":top/bot "@),
        strong("e"@),
        raw(
            ":"@ + (if collapsed {
                "expand"@
            } else {
                "collapse"@
            }) + " "@,
        ),
        strong("q"@),
        raw(":quit"@),
        raw("  ["@ + decimal((scroll + 1) as nat) + "-"@ + decimal(end) + "/"@ + decimal(total) + "]"@),
    ]
}

/// The left half of an area.
pub open spec fn left_half(a: Rect) -> Rect {
    Rect { x: a.x, y: a.y, width: (a.width / 2) as u16, height: a.height }
}

/// The right half of an area: what the left half leaves.
pub open spec fn right_half(a: Rect) -> Rect {
    Rect { x: (a.x + a.width / 2) as u16, y: a.y, width: (a.width - a.width / 2) as u16, height: a.height }
}

/// A plain panel without a block.
pub open spec fn plain_panel(area: Rect, lines: Seq<Seq<PieceV>>, bg: Shade, rule: bool) -> PanelV {
    PanelV { area, block: None, lines, bg, clear: false, rule }
}

/// The areas of a viewer: a one-line header, the body and a one-line footer.
#[derive(PartialEq, Eq, Structural, Clone, Copy, Debug)]
pub struct ViewerLayout {
    pub header: Rect,
    pub body: Rect,
    pub footer: Rect,
}

/// The rows of a viewer.
pub open spec fn viewer_rows() -> Seq<Constraint> {
    seq![Constraint::Length(1), Constraint::Min(1), Constraint::Length(1)]
}

/// Splits `screen` into the areas of a viewer.
pub fn viewer_layout(screen: Rect) -> (l: ViewerLayout)
    ensures
        split_ok(screen, true, viewer_rows(), seq![l.header, l.body, l.footer]),
        screen.fits() ==> l.header.fits() && l.body.fits() && l.footer.fits(),
{
    let mut cs: Vec<Constraint> = Vec::new();
    cs.push(Constraint::Length(1));
    cs.push(Constraint::Min(1));
    cs.push(Constraint::Length(1));
    proof {
        assert(cs@ =~= viewer_rows());
    }
    let chunks = split_area(screen, true, cs);
    let l = ViewerLayout { header: chunks[0], body: chunks[1], footer: chunks[2] };
    proof {
        assert(chunks@ =~= seq![l.header, l.body, l.footer]);
    }
    l
}

/// The side-by-side viewer: the two labels over the two sides of the
/// window of lines from `scroll` (a rule between them), over a footer.
pub open spec fn diff_panels(
    rows: Seq<Row>,
    view: Seq<DisplayLine>,
    collapsed: bool,
    scroll: usize,
    l: ViewerLayout,
    old_label: Seq<char>,
    new_label: Seq<char>,
) -> Seq<PanelV> {
    let total = diff_total(rows, view, collapsed);
    let visible = l.body.height as nat;
    let end = window_end(total, scroll, visible);
    let n: nat = (end - scroll) as nat;
    seq![
        plain_panel(
            left_half(l.header),
            seq![seq![PieceV { text: " "@ + old_label + " "@, fg: Some(Tint::TermRed), bg: Shade::Reset, bold: true }]],
            Shade::Gray,
            false,
        ),
        plain_panel(
            right_half(l.header),
            seq![seq![PieceV { text: " "@ + new_label + " "@, fg: Some(Tint::TermGreen), bg: Shade::Reset, bold: true }]],
            Shade::Gray,
            false,
        ),
        plain_panel(left_half(l.body), Seq::new(n, |k: int| shown_lines(rows, view, collapsed, scroll + k).0), Shade::Reset, true),
        plain_panel(right_half(l.body), Seq::new(n, |k: int| shown_lines(rows, view, collapsed, scroll + k).1), Shade::Reset, false),
        plain_panel(l.footer, seq![diff_footer(collapsed, scroll, end, total)], Shade::Gray, false),
    ]
}

fn side_piece(o: &Option<String>, bg: Shade) -> (p: Piece)
    ensures
        p.model() == (PieceV {
            text: side_text(match o {
                Some(s) => Some(s@),
                None => None,
            }),
            fg: None,
            bg,
            bold: false,
        }),
{
    let text = match o {
        Some(s) => copy_string(s),
        None => String::new(),
    };
    Piece { text, fg: None, bg, bold: false }
}

fn row_lines_exec(l: &DiffLine) -> (r: (Vec<Piece>, Vec<Piece>))
    ensures
        (line_model(r.0@), line_model(r.1@)) == row_lines(l.row()),
{
    let (ls, rs) = match (&l.left, &l.right) {
        (Some(a), Some(b)) => if !same_text(a, b) {
            (Shade::DeleteLine, Shade::InsertLine)
        } else {
            (Shade::Reset, Shade::Reset)
        },
        (Some(_), None) => (Shade::DeleteLine, Shade::Reset),
        (None, Some(_)) => (Shade::Reset, Shade::InsertLine),
        (None, None) => (Shade::Reset, Shade::Reset),
    };
    let mut left: Vec<Piece> = Vec::new();
    push_piece(&mut left, side_piece(&l.left, ls));
    let mut right: Vec<Piece> = Vec::new();
    push_piece(&mut right, side_piece(&l.right, rs));
    proof {
        assert(line_model(left@) =~= row_lines(l.row()).0);
        assert(line_model(right@) =~= row_lines(l.row()).1);
    }
    (left, right)
}

fn hidden_piece(count: usize) -> (p: Piece)
    ensures
        p.model() == hidden_note(count),
{
    let mut text = String::from_str("--- ");
    push_decimal(&mut text, count);
    text.append(" lines hidden ---");
    Piece { text, fg: Some(Tint::Faint), bg: Shade::Reset, bold: false }
}

/// A piece of bold text in the terminal's own color.
pub fn strong_piece(text: &str) -> (p: Piece)
    ensures
        p.model() == strong(text@),
{
    Piece { text: String::from_str(text), fg: None, bg: Shade::Reset, bold: true }
}

/// A piece of text without a style of its own.
pub fn raw_text(text: String) -> (p: Piece)
    ensures
        p.model() == raw(text@),
{
    Piece { text, fg: None, bg: Shade::Reset, bold: false }
}

fn diff_footer_exec(collapsed: bool, scroll: usize, end: usize, total: usize) -> (l: Vec<Piece>)
    requires
        scroll < usize::MAX,
    ensures
        line_model(l@) == diff_footer(collapsed, scroll, end as nat, total as nat),
{
    let mut l: Vec<Piece> = Vec::new();
    push_piece(&mut l, strong_piece(" j/k"));
    push_piece(&mut l, raw_text(String::from_str(":scroll ")));
    push_piece(&mut l, strong_piece("n/N"));
    push_piece(&mut l, raw_text(String::from_str(":hunk ")));
    push_piece(&mut l, strong_piece("g/G"));
    push_piece(&mut l, raw_text(String::from_str(":top/bot ")));
    push_piece(&mut l, strong_piece("e"));
    let mut label = String::from_str(":");
    if collapsed {
        label.append("expand");
    } else {
        label.append("collapse");
    }
    label.append(" ");
    push_piece(&mut l, raw_text(label));
    push_piece(&mut l, strong_piece("q"));
    push_piece(&mut l, raw_text(String::from_str(":quit")));
    let mut pos = String::from_str("  [");
    push_decimal(&mut pos, scroll + 1);
    pos.append("-");
    push_decimal(&mut pos, end);
    pos.append("/");
    push_decimal(&mut pos, total);
    pos.append("]");
    push_piece(&mut l, raw_text(pos));
    proof {
        assert(line_model(l@) =~= diff_footer(collapsed, scroll, end as nat, total as nat));
    }
    l
}

fn label_lines(label: &str, t: Tint) -> (lines: Vec<Vec<Piece>>)
    ensures
        lines_model(lines@) == seq![seq![PieceV { text: " "@ + label@ + " "@, fg: Some(t), bg: Shade::Reset, bold: true }]],
{
    let mut text = String::from_str(" ");
    text.append(label);
    text.append(" ");
    let mut l: Vec<Piece> = Vec::new();
    push_piece(&mut l, Piece { text, fg: Some(t), bg: Shade::Reset, bold: true });
    proof {
        assert(line_model(l@) =~= seq![PieceV { text: " "@ + label@ + " "@, fg: Some(t), bg: Shade::Reset, bold: true }]);
    }
    let mut lines: Vec<Vec<Piece>> = Vec::new();
    push_line(&mut lines, l);
    proof {
        assert(lines_model(lines@) =~= seq![seq![PieceV { text: " "@ + label@ + " "@, fg: Some(t), bg: Shade::Reset, bold: true }]]);
    }
    lines
}

fn halves(a: Rect) -> (r: (Rect, Rect))
    requires
        a.fits(),
    ensures
        r.0 == left_half(a),
        r.1 == right_half(a),
{
    let half = a.width / 2;
    (Rect { x: a.x, y: a.y, width: half, height: a.height }, Rect { x: a.x + half, y: a.y, width: a.width - half, height: a.height })
}

/// A panel without a block.
pub fn plain(area: Rect, lines: Vec<Vec<Piece>>, bg: Shade, rule: bool) -> (p: Panel)
    ensures
        p.model() == plain_panel(area, lines_model(lines@), bg, rule),
{
    Panel { area, block: None, lines, bg, clear: false, rule }
}

/// What the side-by-side viewer draws for the window of lines from
/// `scroll`, in the collapsed view or in the full one.
pub fn diff_frame(
    lines: &Vec<DiffLine>,
    view: &Vec<DisplayLine>,
    collapsed: bool,
    scroll: usize,
    layout: ViewerLayout,
    old_label: &str,
    new_label: &str,
) -> (panels: Vec<Panel>)
    requires
        view@ == collapsed_from(rows_of(lines@), 0),
        scroll <= diff_total(rows_of(lines@), view@, collapsed),
        short_of_room(scroll),
        layout.header.fits(),
        layout.body.fits(),
    ensures
        panels_model(panels@) == diff_panels(rows_of(lines@), view@, collapsed, scroll, layout, old_label@, new_label@),
{
    let ghost rows = rows_of(lines@);
    let count = lines.len();
    proof {
        assert(rows.len() == count);
        lemma_collapsed_real_in_range(rows, 0);
    }
    let total = if collapsed {
        view.len()
    } else {
        lines.len()
    };
    let visible = layout.body.height as usize;
    let end = if scroll + visible <= total {
        scroll + visible
    } else {
        total
    };
    let mut left: Vec<Vec<Piece>> = Vec::new();
    let mut right: Vec<Vec<Piece>> = Vec::new();
    let mut k = scroll;
    while k < end
        invariant
            scroll <= k <= end <= total,
            total == diff_total(rows, view@, collapsed),
            rows == rows_of(lines@),
            forall|i: int| 0 <= i < view@.len() ==> (#[trigger] view@[i] matches DisplayLine::Real(j) ==> 0 <= j < rows.len()),
            lines_model(left@) == Seq::new((k - scroll) as nat, |i: int| shown_lines(rows, view@, collapsed, scroll + i).0),
            lines_model(right@) == Seq::new((k - scroll) as nat, |i: int| shown_lines(rows, view@, collapsed, scroll + i).1),
        decreases end - k,
    {
        let ghost want = shown_lines(rows, view@, collapsed, k as int);
        let (l, r) = if collapsed {
            match view[k] {
                DisplayLine::Real(i) => row_lines_exec(&lines[i]),
                DisplayLine::Separator(c) => {
                    let mut a: Vec<Piece> = Vec::new();
                    push_piece(&mut a, hidden_piece(c));
                    let mut b: Vec<Piece> = Vec::new();
                    push_piece(&mut b, hidden_piece(c));
                    (a, b)
                },
            }
        } else {
            row_lines_exec(&lines[k])
        };
        proof {
            assert(line_model(l@) == want.0);
            assert(line_model(r@) == want.1);
        }
        push_line(&mut left, l);
        push_line(&mut right, r);
        k += 1;
        proof {
            assert(lines_model(left@) =~= Seq::new((k - scroll) as nat, |i: int| shown_lines(rows, view@, collapsed, scroll + i).0));
            assert(lines_model(right@) =~= Seq::new((k - scroll) as nat, |i: int| shown_lines(rows, view@, collapsed, scroll + i).1));
        }
    }
    let (hl, hr) = halves(layout.header);
    let (cl, cr) = halves(layout.body);
    let mut footer: Vec<Vec<Piece>> = Vec::new();
    push_line(&mut footer, diff_footer_exec(collapsed, scroll, end, total));
    proof {
        assert(lines_model(footer@) =~= seq![diff_footer(collapsed, scroll, end as nat, total as nat)]);
    }
    let mut panels: Vec<Panel> = Vec::new();
    push_panel(&mut panels, plain(hl, label_lines(old_label, Tint::TermRed), Shade::Gray, false));
    push_panel(&mut panels, plain(hr, label_lines(new_label, Tint::TermGreen), Shade::Gray, false));
    push_panel(&mut panels, plain(cl, left, Shade::Reset, true));
    push_panel(&mut panels, plain(cr, right, Shade::Reset, false));
    push_panel(&mut panels, plain(layout.footer, footer, Shade::Gray, false));
    proof {
        assert(panels_model(panels@) =~= diff_panels(rows, view@, collapsed, scroll, layout, old_label@, new_label@));
    }
    panels
}

} // verus!
