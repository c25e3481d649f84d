use vstd::prelude::*;

use crate::browse::{Rect, Tint};
use crate::diff_frame::{plain, plain_panel, raw_text, strong, strong_piece, ViewerLayout};
use crate::frame::{panels_model, push_panel, push_piece, short_of_room, Panel, PanelV};
use crate::panes::{line_model, lines_model, push_line, repeated, Piece, PieceV, Shade};
use crate::paths::texts;
use crate::show::{ShowMode, ShowState};
use crate::text::{chars_of, copy_string, push_char};
use crate::theme::raw;
use crate::values::{decimal, push_decimal};

verus! {

// ---------------------------------------------------------------------------
// The text viewer's frame
// ---------------------------------------------------------------------------

/// The number `n` right-aligned in `width` characters.
pub open spec fn right_aligned(n: nat, width: nat) -> Seq<char> {
    let d = decimal(n);
    repeated(
        ' ',
        if d.len() < width {
            (width - d.len()) as nat
        } else {
            0
        },
    ) + d
}

/// Line `i` of the text with its number in a gutter as wide as the number
/// of lines; the lines that match the search on yellow.
pub open spec fn numbered_line(text: Seq<char>, i: nat, total: nat, matched: bool) -> Seq<PieceV> {
    seq![
        PieceV {
            text: right_aligned(i + 1, decimal(total).len()) + " "@,
            fg: Some(Tint::TermGray),
            bg: Shade::Reset,
            bold: false,
        },
        if matched {
            PieceV { text, fg: Some(Tint::TermBlack), bg: Shade::Yellow, bold: false }
        } else {
            PieceV { text, fg: None, bg: Shade::Reset, bold: false }
        },
    ]
}

/// The viewer's footer: the status message, the keys and the window's
/// position, the search being typed, or the path being typed.
pub open spec fn show_footer(mode: ShowMode, status: Option<Seq<char>>, query: Seq<char>, save_path: Seq<char>, scroll: usize, end: nat, total: nat) -> Seq<PieceV> {
    match mode {
        ShowMode::Normal => match status {
            Some(m) => seq![PieceV { text: " "@ + m + " "@, fg: Some(Tint::TermGreen), bg: Shade::Reset, bold: false }],
            None => seq![
                strong(" j/k"@),
                raw(":scroll "@),
                strong("g/G"@),
                raw(":top/bot "@),
                strong("/"@),
                raw(":search "@),
                strong("s"@),
                raw(":save "@),
                strong("q"@),
                raw(":quit"@),
                raw("  ["@ + decimal((scroll + 1) as nat) + "-"@ + decimal(end) + "/"@ + decimal(total) + "]"@),
            ],
        },
        ShowMode::Search => seq![strong(" /"@), raw(query)],
        ShowMode::Save => seq![strong(" Save to: "@), raw(save_path)],
    }
}

/// The text viewer: a header with the label and the number of lines, the
/// numbered lines from the scroll offset, and the footer.
pub open spec fn show_panels(
    lines: Seq<Seq<char>>,
    mode: ShowMode,
    status: Option<Seq<char>>,
    query: Seq<char>,
    save_path: Seq<char>,
    matches: Seq<usize>,
    scroll: usize,
    label: Seq<char>,
    l: ViewerLayout,
) -> Seq<PanelV> {
    let total = lines.len();
    let end: nat = if scroll + l.body.height <= total {
        (scroll + l.body.height) as nat
    } else {
        total
    };
    let n: nat = if scroll <= end {
        (end - scroll) as nat
    } else {
        0
    };
    seq![
        plain_panel(
            l.header,
            seq![seq![strong(" "@ + label + " "@), raw("  ("@ + decimal(total) + " lines)"@)]],
            Shade::Gray,
            false,
        ),
        plain_panel(
            l.body,
            Seq::new(
                n,
                |k: int| numbered_line(lines[scroll + k], (scroll + k) as nat, total, matches.contains((scroll + k) as usize)),
            ),
            Shade::Reset,
            false,
        ),
        plain_panel(l.footer, seq![show_footer(mode, status, query, save_path, scroll, end, total)], Shade::Gray, false),
    ]
}

fn in_matches(matches: &Vec<usize>, i: usize) -> (r: bool)
    ensures
        r == matches@.contains(i),
{
    let mut k: usize = 0;
    while k < matches.len()
        invariant
            k <= matches.len(),
            forall|j: int| 0 <= j < k ==> matches@[j] != i,
        decreases matches.len() - k,
    {
        if matches[k] == i {
            return true;
        }
        k += 1;
    }
    false
}

fn right_aligned_exec(n: usize, width: usize) -> (s: String)
    ensures
        s@ == right_aligned(n as nat, width as nat),
{
    let mut d = String::new();
    push_decimal(&mut d, n);
    let dl = chars_of(d.as_str()).len();
    let mut s = String::new();
    let mut k = dl;
    while k < width
        invariant
            dl == decimal(n as nat).len(),
            dl <= k <= width || (k == dl && dl >= width),
            s@ == repeated(' ', (k - dl) as nat),
        decreases width - k,
    {
        push_char(&mut s, ' ');
        k += 1;
        proof {
            assert(s@ =~= repeated(' ', (k - dl) as nat));
        }
    }
    s.append(d.as_str());
    proof {
        if dl >= width {
            assert(repeated(' ', 0) =~= Seq::<char>::empty());
        }
        assert(s@ =~= right_aligned(n as nat, width as nat));
    }
    s
}

fn numbered_line_exec(text: &String, i: usize, gutter: usize, matched: bool) -> (l: Vec<Piece>)
    requires
        i < usize::MAX,
    ensures
        line_model(l@) == seq![
            PieceV {
                text: right_aligned((i + 1) as nat, gutter as nat) + " "@,
                fg: Some(Tint::TermGray),
                bg: Shade::Reset,
                bold: false,
            },
            if matched {
                PieceV { text: text@, fg: Some(Tint::TermBlack), bg: Shade::Yellow, bold: false }
            } else {
                PieceV { text: text@, fg: None, bg: Shade::Reset, bold: false }
            },
        ],
{
    let mut num = right_aligned_exec(i + 1, gutter);
    num.append(" ");
    let mut l: Vec<Piece> = Vec::new();
    push_piece(&mut l, Piece { text: num, fg: Some(Tint::TermGray), bg: Shade::Reset, bold: false });
    if matched {
        push_piece(&mut l, Piece { text: copy_string(text), fg: Some(Tint::TermBlack), bg: Shade::Yellow, bold: false });
    } else {
        push_piece(&mut l, Piece { text: copy_string(text), fg: None, bg: Shade::Reset, bold: false });
    }
    l
}

fn show_footer_exec(state: &ShowState, end: usize, total: usize) -> (l: Vec<Piece>)
    requires
        state.scroll < usize::MAX,
    ensures
        line_model(l@) == show_footer(
            state.mode,
            state.view().status,
            state.search_query@,
            state.save_path@,
            state.scroll,
            end as nat,
            total as nat,
        ),
{
    let mut l: Vec<Piece> = Vec::new();
    match state.mode {
        ShowMode::Normal => match &state.status_msg {
            Some(m) => {
                let mut t = String::from_str(" ");
                t.append(m.as_str());
                t.append(" ");
                push_piece(&mut l, Piece { text: t, fg: Some(Tint::TermGreen), bg: Shade::Reset, bold: false });
            },
            None => {
                push_piece(&mut l, strong_piece(" j/k"));
                push_piece(&mut l, raw_text(String::from_str(":scroll ")));
                push_piece(&mut l, strong_piece("g/G"));
                push_piece(&mut l, raw_text(String::from_str(":top/bot ")));
                push_piece(&mut l, strong_piece("/"));
                push_piece(&mut l, raw_text(String::from_str(":search ")));
                push_piece(&mut l, strong_piece("s"));
                push_piece(&mut l, raw_text(String::from_str(":save ")));
                push_piece(&mut l, strong_piece("q"));
                push_piece(&mut l, raw_text(String::from_str(":quit")));
                let mut pos = String::from_str("  [");
                push_decimal(&mut pos, state.scroll + 1);
                pos.append("-");
                push_decimal(&mut pos, end);
                pos.append("/");
                push_decimal(&mut pos, total);
                pos.append("]");
                push_piece(&mut l, raw_text(pos));
            },
        },
        ShowMode::Search => {
            push_piece(&mut l, strong_piece(" /"));
            push_piece(&mut l, raw_text(copy_string(&state.search_query)));
        },
        ShowMode::Save => {
            push_piece(&mut l, strong_piece(" Save to: "));
            push_piece(&mut l, raw_text(copy_string(&state.save_path)));
        },
    }
    proof {
        assert(line_model(l@) =~= show_footer(
            state.mode,
            state.view().status,
            state.search_query@,
            state.save_path@,
            state.scroll,
            end as nat,
            total as nat,
        ));
    }
    l
}

/// What the text viewer draws for `lines` in its current state.
pub fn show_frame(state: &ShowState, lines: &Vec<String>, label: &str, layout: ViewerLayout) -> (panels: Vec<Panel>)
    requires
        short_of_room(state.scroll),
    ensures
        panels_model(panels@) == show_panels(
            texts(lines@),
            state.mode,
            state.view().status,
            state.search_query@,
            state.save_path@,
            state.search_matches@,
            state.scroll,
            label@,
            layout,
        ),
{
    let ghost tl = texts(lines@);
    let total = lines.len();
    let visible = layout.body.height as usize;
    let scroll = state.scroll;
    let end = if scroll + visible <= total {
        scroll + visible
    } else {
        total
    };
    let mut digits = String::new();
    push_decimal(&mut digits, total);
    let gutter = chars_of(digits.as_str()).len();
    let mut rows: Vec<Vec<Piece>> = Vec::new();
    let mut i = scroll;
    while i < end
        invariant
            scroll <= i,
            i <= end || i == scroll,
            end <= total,
            total == lines@.len(),
            tl == texts(lines@),
            gutter == decimal(total as nat).len(),
            lines_model(rows@) == Seq::new(
                (i - scroll) as nat,
                |k: int| numbered_line(tl[scroll + k], (scroll + k) as nat, total as nat, state.search_matches@.contains((scroll + k) as usize)),
            ),
        decreases end - i,
    {
        let matched = in_matches(&state.search_matches, i);
        let l = numbered_line_exec(&lines[i], i, gutter, matched);
        proof {
            assert(tl[i as int] == lines@[i as int]@);
        }
        push_line(&mut rows, l);
        i += 1;
        proof {
            assert(lines_model(rows@) =~= Seq::new(
                (i - scroll) as nat,
                |k: int| numbered_line(tl[scroll + k], (scroll + k) as nat, total as nat, state.search_matches@.contains((scroll + k) as usize)),
            ));
        }
    }
    let mut header: Vec<Piece> = Vec::new();
    let mut title = String::from_str(" ");
    title.append(label);
    title.append(" ");
    push_piece(&mut header, Piece { text: title, fg: None, bg: Shade::Reset, bold: true });
    let mut count = String::from_str("  (");
    push_decimal(&mut count, total);
    count.append(" lines)");
    push_piece(&mut header, raw_text(count));
    proof {
        assert(line_model(header@) =~= seq![strong(" "@ + label@ + " "@), raw("  ("@ + decimal(total as nat) + " lines)"@)]);
    }
    let mut header_lines: Vec<Vec<Piece>> = Vec::new();
    push_line(&mut header_lines, header);
    let mut footer_lines: Vec<Vec<Piece>> = Vec::new();
    push_line(&mut footer_lines, show_footer_exec(state, end, total));
    proof {
        assert(lines_model(header_lines@) =~= seq![
            seq![strong(" "@ + label@ + " "@), raw("  ("@ + decimal(total as nat) + " lines)"@)],
        ]);
        assert(lines_model(footer_lines@) =~= seq![
            show_footer(
                state.mode,
                state.view().status,
                state.search_query@,
                state.save_path@,
                scroll,
                end as nat,
                total as nat,
            ),
        ]);
        if scroll > end {
            assert(rows@.len() == 0);
        }
    }
    let mut panels: Vec<Panel> = Vec::new();
    push_panel(&mut panels, plain(layout.header, header_lines, Shade::Gray, false));
    push_panel(&mut panels, plain(layout.body, rows, Shade::Reset, false));
    push_panel(&mut panels, plain(layout.footer, footer_lines, Shade::Gray, false));
    proof {
        assert(panels_model(panels@) =~= show_panels(
            tl,
            state.mode,
            state.view().status,
            state.search_query@,
            state.save_path@,
            state.search_matches@,
            state.scroll,
            label@,
            layout,
        ));
    }
    panels
}

} // verus!
