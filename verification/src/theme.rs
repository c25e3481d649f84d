use vstd::prelude::*;

use ratatui::layout::Constraint as LayoutPart;
use ratatui::layout::{Direction, Layout};

use crate::browse::{Rect, Tint};
use crate::panes::{line_model, Piece, PieceV, Shade};
use crate::text::{chars_of, push_char};
use crate::values::{decimal, push_decimal};

verus! {

// ---------------------------------------------------------------------------
// Splitting the screen
// ---------------------------------------------------------------------------

/// How much of an area one part of a layout takes.
#[derive(PartialEq, Eq, Structural, Clone, Copy, Debug)]
pub enum Constraint {
    Length(u16),
    Percentage(u16),
    Min(u16),
}

/// Where a rectangle begins along a split: its top when `vertical`, its
/// left edge otherwise.
pub open spec fn start_along(r: Rect, vertical: bool) -> int {
    if vertical {
        r.y as int
    } else {
        r.x as int
    }
}

/// A rectangle's size along a split: its height when `vertical`, its width
/// otherwise.
pub open spec fn size_along(r: Rect, vertical: bool) -> int {
    if vertical {
        r.height as int
    } else {
        r.width as int
    }
}

/// `pct` percent of `extent` cells, rounded to the nearest cell, halves up.
pub open spec fn share(extent: int, pct: int) -> int {
    (extent * pct + 50) / 100
}

/// The sum of the percentages among the first `i` constraints.
pub open spec fn prefix_pct(cs: Seq<Constraint>, i: int) -> int
    decreases i,
{
    if i <= 0 {
        0
    } else {
        prefix_pct(cs, i - 1) + match cs[i - 1] {
            Constraint::Percentage(p) => p as int,
            _ => 0,
        }
    }
}

/// Percentages that add up to at most a hundred, followed by one `Min(0)`
/// that takes the rest.
pub open spec fn percent_shape(cs: Seq<Constraint>) -> bool {
    &&& cs.len() >= 1
    &&& cs.last() == Constraint::Min(0)
    &&& forall|i: int| 0 <= i < cs.len() - 1 ==> #[trigger] cs[i] is Percentage
    &&& prefix_pct(cs, cs.len() - 1) <= 100
}

/// What holds of every split of `area` along `constraints`, top to bottom
/// when `vertical`, left to right otherwise: one part per constraint; each
/// part keeps the area's extent across the split; each part ends within a
/// `u16` when the area does. On an area that ends within a `u16`, moreover:
/// each part lies inside the area along the split; each part ends where or
/// before the next one begins; and for percentages followed by one
/// `Min(0)`, the parts before the last begin and end at the area's start
/// plus their running share of the area, rounded to the nearest cell.
pub open spec fn split_ok(area: Rect, vertical: bool, constraints: Seq<Constraint>, parts: Seq<Rect>) -> bool {
    &&& parts.len() == constraints.len()
    &&& forall|i: int|
        0 <= i < parts.len() ==> if vertical {
            #[trigger] parts[i].x == area.x && parts[i].width == area.width
        } else {
            parts[i].y == area.y && parts[i].height == area.height
        }
    &&& area.fits() ==> forall|i: int| 0 <= i < parts.len() ==> (#[trigger] parts[i]).fits()
    &&& area.fits() ==> forall|i: int|
        0 <= i < parts.len() ==> start_along(area, vertical) <= start_along(#[trigger] parts[i], vertical)
            && start_along(parts[i], vertical) + size_along(parts[i], vertical) <= start_along(area, vertical)
            + size_along(area, vertical)
    &&& area.fits() ==> forall|i: int|
        0 <= i < parts.len() - 1 ==> start_along(#[trigger] parts[i], vertical) + size_along(parts[i], vertical)
            <= start_along(parts[i + 1], vertical)
    &&& area.fits() && percent_shape(constraints) ==> forall|i: int|
        0 <= i < parts.len() - 1 ==> start_along(#[trigger] parts[i], vertical) == start_along(area, vertical) + share(
            size_along(area, vertical),
            prefix_pct(constraints, i),
        ) && start_along(parts[i], vertical) + size_along(parts[i], vertical) == start_along(area, vertical) + share(
            size_along(area, vertical),
            prefix_pct(constraints, i + 1),
        )
}

/// Splits `area` with ratatui's `Layout` (no margin, no spacing, the default
/// `Flex::Start`). The contract claims what the layout code shows of every
/// run (`split_ok`): the area's ends, every edge inside the area and the
/// order of each part's own edges are required constraints of the solver;
/// the gaps between parts are held at zero by constraints that outweigh
/// everything a gap or an overlap could gain; percentages are strong
/// constraints, met exactly wherever the required ones and the zero gaps
/// allow it (as they do when the percentages add up to at most a hundred
/// and a `Min(0)` takes the rest), the first gap is empty and the edges,
/// exact in hundredths of a cell, are rounded to hundredths and then to
/// cells, halves up. Other sizes along the split are left to the solver,
/// which picks among equally good solutions by walking hash maps with
/// per-process seeds, so they are not stated and not named. The solver
/// meets the required constraints on every area, so the call does not panic.
#[verifier::external_body]
pub(crate) fn split_area(area: Rect, vertical: bool, constraints: Vec<Constraint>) -> (parts: Vec<Rect>)
    ensures
        split_ok(area, vertical, constraints@, parts@),
{
    let d = if vertical { Direction::Vertical } else { Direction::Horizontal };
    let cs = constraints.iter().map(|c| match *c {
        Constraint::Length(n) => LayoutPart::Length(n),
        Constraint::Percentage(n) => LayoutPart::Percentage(n),
        Constraint::Min(n) => LayoutPart::Min(n),
    });
    let r = ratatui::layout::Rect { x: area.x, y: area.y, width: area.width, height: area.height };
    Layout::default().direction(d).constraints(cs).split(r).iter().map(|p| Rect { x: p.x, y: p.y, width: p.width, height: p.height }).collect()
}

/// `a + b`, or the largest `u16` where that does not fit.
pub open spec fn sat_add16(a: u16, b: u16) -> u16 {
    if a + b <= u16::MAX {
        (a + b) as u16
    } else {
        u16::MAX
    }
}

/// `a - b`, or 0 where that is negative.
pub open spec fn sat_sub16(a: u16, b: u16) -> u16 {
    if a >= b {
        (a - b) as u16
    } else {
        0
    }
}

/// The area inside the borders of a block drawn with all four borders: one
/// cell in from each side, and never past the far edge.
pub open spec fn bordered(r: Rect) -> Rect {
    let x1 = sat_add16(r.x, 1);
    let right = sat_add16(r.x, r.width);
    let y1 = sat_add16(r.y, 1);
    let bottom = sat_add16(r.y, r.height);
    Rect {
        x: if x1 < right {
            x1
        } else {
            right
        },
        y: if y1 < bottom {
            y1
        } else {
            bottom
        },
        width: sat_sub16(r.width, 2),
        height: sat_sub16(r.height, 2),
    }
}

fn sat_add(a: u16, b: u16) -> (r: u16)
    ensures
        r == sat_add16(a, b),
{
    if a <= u16::MAX - b {
        a + b
    } else {
        u16::MAX
    }
}

fn sat_sub(a: u16, b: u16) -> (r: u16)
    ensures
        r == sat_sub16(a, b),
{
    if a >= b {
        a - b
    } else {
        0
    }
}

/// The area inside the borders of a bordered block.
pub fn bordered_inner(r: Rect) -> (inner: Rect)
    ensures
        inner == bordered(r),
        r.fits() ==> inner.fits(),
{
    let x1 = sat_add(r.x, 1);
    let right = sat_add(r.x, r.width);
    let y1 = sat_add(r.y, 1);
    let bottom = sat_add(r.y, r.height);
    Rect {
        x: if x1 < right {
            x1
        } else {
            right
        },
        y: if y1 < bottom {
            y1
        } else {
            bottom
        },
        width: sat_sub(r.width, 2),
        height: sat_sub(r.height, 2),
    }
}

/// The parts of a layout that keeps a centered box of `percent_x` by
/// `percent_y` percent of `area`.
pub open spec fn centered_parts(percent: u16) -> Seq<Constraint> {
    seq![
        Constraint::Percentage(((100 - percent) / 2) as u16),
        Constraint::Percentage(percent),
        Constraint::Min(0),
    ]
}

fn centered_constraints(percent: u16) -> (v: Vec<Constraint>)
    requires
        percent <= 100,
    ensures
        v@ == centered_parts(percent),
{
    let mut v: Vec<Constraint> = Vec::new();
    v.push(Constraint::Percentage((100 - percent) / 2));
    v.push(Constraint::Percentage(percent));
    v.push(Constraint::Min(0));
    proof {
        assert(v@ =~= centered_parts(percent));
    }
    v
}

/// A box of `percent_x` by `percent_y` percent centered in `area`: it
/// begins after half the rest of each extent, and both its edges are
/// rounded to the nearest cell.
pub open spec fn centered_box(percent_x: u16, percent_y: u16, area: Rect) -> Rect {
    let ax = (100 - percent_x) / 2;
    let ay = (100 - percent_y) / 2;
    let x0 = share(area.width as int, ax);
    let x1 = share(area.width as int, ax + percent_x);
    let y0 = share(area.height as int, ay);
    let y1 = share(area.height as int, ay + percent_y);
    Rect { x: (area.x + x0) as u16, y: (area.y + y0) as u16, width: (x1 - x0) as u16, height: (y1 - y0) as u16 }
}

/// A share rounded to the nearest cell is within half a cell of the exact
/// share, and never more than the whole extent.
pub proof fn lemma_share_bounds(extent: int, pct: int)
    requires
        0 <= extent,
        0 <= pct <= 100,
    ensures
        extent * pct - 50 < 100 * share(extent, pct) <= extent * pct + 50,
        0 <= share(extent, pct) <= extent,
{
    let n = extent * pct;
    assert(0 <= n <= 100 * extent) by (nonlinear_arith)
        requires
            0 <= extent,
            0 <= pct <= 100,
            n == extent * pct,
    ;
}

/// Shares grow with the percentage.
pub proof fn lemma_share_monotone(extent: int, p: int, q: int)
    requires
        0 <= extent,
        0 <= p <= q,
    ensures
        share(extent, p) <= share(extent, q),
{
    assert(extent * p <= extent * q) by (nonlinear_arith)
        requires
            0 <= extent,
            0 <= p <= q,
    ;
}

/// A box centered in `area`: the middle part of a vertical split, then the
/// middle part of a horizontal split of that.
pub open spec fn centered_ok(percent_x: u16, percent_y: u16, area: Rect, r: Rect) -> bool {
    exists|v: Seq<Rect>, h: Seq<Rect>|
        #![trigger split_ok(area, true, centered_parts(percent_y), v), split_ok(v[1], false, centered_parts(percent_x), h)]
        split_ok(area, true, centered_parts(percent_y), v) && split_ok(v[1], false, centered_parts(percent_x), h) && r
            == h[1]
}

/// A box of `percent_x` by `percent_y` percent centered in `area`.
pub fn centered_rect(percent_x: u16, percent_y: u16, area: Rect) -> (r: Rect)
    requires
        percent_x <= 100,
        percent_y <= 100,
    ensures
        centered_ok(percent_x, percent_y, area, r),
        area.fits() ==> r.fits(),
        area.fits() ==> r == centered_box(percent_x, percent_y, area),
        area.fits() ==> {
            &&& area.x <= r.x && r.x + r.width <= area.x + area.width
            &&& area.y <= r.y && r.y + r.height <= area.y + area.height
            &&& area.width * percent_x - 100 <= r.width * 100 <= area.width * percent_x + 100
            &&& area.height * percent_y - 100 <= r.height * 100 <= area.height * percent_y + 100
            &&& area.width * ((100 - percent_x) / 2) - 50 <= (r.x - area.x) * 100 <= area.width * ((100 - percent_x) / 2) + 50
            &&& area.height * ((100 - percent_y) / 2) - 50 <= (r.y - area.y) * 100 <= area.height * ((100 - percent_y) / 2) + 50
        },
{
    let v = split_area(area, true, centered_constraints(percent_y));
    let h = split_area(v[1], false, centered_constraints(percent_x));
    proof {
        assert(split_ok(area, true, centered_parts(percent_y), v@) && split_ok(v@[1], false, centered_parts(percent_x), h@)
            && h[1] == h@[1]);
        if area.fits() {
            lemma_centered_shape(percent_x);
            lemma_centered_shape(percent_y);
            let ax = (100 - percent_x) / 2;
            let ay = (100 - percent_y) / 2;
            let v1 = v@[1];
            let r = h@[1];
            assert(v1.x == area.x && v1.width == area.width);
            assert(v1.fits());
            assert(v1.y == area.y + share(area.height as int, ay));
            assert(v1.y + v1.height == area.y + share(area.height as int, ay + percent_y));
            assert(r.y == v1.y && r.height == v1.height);
            assert(r.x == v1.x + share(v1.width as int, ax));
            assert(r.x + r.width == v1.x + share(v1.width as int, ax + percent_x));
            lemma_share_bounds(area.width as int, ax);
            lemma_share_bounds(area.width as int, ax + percent_x);
            lemma_share_bounds(area.height as int, ay);
            lemma_share_bounds(area.height as int, ay + percent_y);
            let w = area.width as int;
            let hh = area.height as int;
            assert(w * (ax + percent_x) == w * ax + w * percent_x) by (nonlinear_arith);
            assert(hh * (ay + percent_y) == hh * ay + hh * percent_y) by (nonlinear_arith);
            assert(r.width * 100 == 100 * share(w, ax + percent_x) - 100 * share(w, ax));
            assert(r.height * 100 == 100 * share(hh, ay + percent_y) - 100 * share(hh, ay));
        }
    }
    h[1]
}

proof fn lemma_centered_shape(percent: u16)
    requires
        percent <= 100,
    ensures
        percent_shape(centered_parts(percent)),
        prefix_pct(centered_parts(percent), 1) == (100 - percent) / 2,
        prefix_pct(centered_parts(percent), 2) == (100 - percent) / 2 + percent,
{
    let cs = centered_parts(percent);
    reveal_with_fuel(prefix_pct, 3);
    assert(cs.last() == Constraint::Min(0));
    assert(prefix_pct(cs, 0) == 0);
    assert(prefix_pct(cs, 1) == (100 - percent) / 2);
    assert(prefix_pct(cs, 2) == (100 - percent) / 2 + percent);
}

// ---------------------------------------------------------------------------
// Blocks and pills
// ---------------------------------------------------------------------------

/// A pane's frame: rounded borders in `border`, a title, and the fill of
/// its background.
pub struct BlockView {
    pub title: Vec<Piece>,
    pub border: Tint,
    pub fill: Shade,
}

/// The model of a pane's frame.
pub struct BlockV {
    pub title: Seq<PieceV>,
    pub border: Tint,
    pub fill: Shade,
}

impl BlockView {
    pub open spec fn model(&self) -> BlockV {
        BlockV { title: line_model(self.title@), border: self.border, fill: self.fill }
    }
}

/// The border of a pane: magenta with focus, the gutter's gray without.
pub open spec fn border_tint(active: bool) -> Tint {
    if active {
        Tint::Magenta
    } else {
        Tint::Gutter
    }
}

/// Text without a style of its own.
pub open spec fn raw(text: Seq<char>) -> PieceV {
    PieceV { text, fg: None, bg: Shade::Reset, bold: false }
}

/// A block titled ` title ` in bold, in the border's color.
pub open spec fn plain_block(title: Seq<char>, active: bool) -> BlockV {
    BlockV {
        title: seq![PieceV { text: " "@ + title + " "@, fg: Some(border_tint(active)), bg: Shade::Reset, bold: true }],
        border: border_tint(active),
        fill: Shade::Reset,
    }
}

fn one(p: Piece) -> (l: Vec<Piece>)
    ensures
        line_model(l@) == seq![p.model()],
{
    let mut l: Vec<Piece> = Vec::new();
    l.push(p);
    proof {
        assert(line_model(l@) =~= seq![p.model()]);
    }
    l
}

fn push_piece(line: &mut Vec<Piece>, p: Piece)
    ensures
        line_model(final(line)@) == line_model(old(line)@).push(p.model()),
{
    line.push(p);
    proof {
        assert(line_model(line@) =~= line_model(old(line)@).push(p.model()));
    }
}

fn border_of(active: bool) -> (t: Tint)
    ensures
        t == border_tint(active),
{
    if active {
        Tint::Magenta
    } else {
        Tint::Gutter
    }
}

/// A bordered block with a plain title.
pub fn make_block(title: &str, active: bool) -> (b: BlockView)
    ensures
        b.model() == plain_block(title@, active),
{
    let t = border_of(active);
    let mut text = String::from_str(" ");
    text.append(title);
    text.append(" ");
    BlockView { title: one(Piece { text, fg: Some(t), bg: Shade::Reset, bold: true }), border: t, fill: Shade::Reset }
}

/// `c` in lower case where it is an ASCII capital (`char::to_ascii_lowercase`).
pub open spec fn ascii_lower(c: char) -> char {
    if 'A' <= c <= 'Z' {
        ((c as u32) + 32) as char
    } else {
        c
    }
}

fn to_ascii_lower(c: char) -> (r: char)
    ensures
        r == ascii_lower(c),
{
    if 'A' <= c && c <= 'Z' {
        let b = (c as u8) + 32;
        b as char
    } else {
        c
    }
}

/// The characters of a title from `k` on, one piece each: the first whose
/// lower case is `key` in bold red (unless one was already found), the
/// others bold in the border's color.
pub open spec fn keyed_chars(base: Seq<char>, k: int, key: char, found: bool, t: Tint) -> Seq<PieceV>
    decreases base.len() - k,
{
    if k < 0 || k >= base.len() {
        seq![]
    } else {
        let hit = !found && ascii_lower(base[k]) == key;
        seq![
            PieceV {
                text: seq![base[k]],
                fg: Some(
                    if hit {
                        Tint::Red
                    } else {
                        t
                    },
                ),
                bg: Shade::Reset,
                bold: true,
            },
        ] + keyed_chars(base, k + 1, key, found || hit, t)
    }
}

/// The number of pieces in red.
pub open spec fn reds(title: Seq<PieceV>) -> int
    decreases title.len(),
{
    if title.len() == 0 {
        0
    } else {
        (if title[0].fg == Some(Tint::Red) {
            1int
        } else {
            0
        }) + reds(title.drop_first())
    }
}

proof fn lemma_reds_append(a: Seq<PieceV>, b: Seq<PieceV>)
    ensures
        reds(a + b) == reds(a) + reds(b),
    decreases a.len(),
{
    if a.len() > 0 {
        lemma_reds_append(a.drop_first(), b);
        assert((a + b).drop_first() =~= a.drop_first() + b);
    }
}

proof fn lemma_keyed_chars_reds(base: Seq<char>, k: int, key: char, found: bool, t: Tint)
    requires
        t != Tint::Red,
        0 <= k,
    ensures
        reds(keyed_chars(base, k, key, found, t)) == if !found && exists|j: int|
            k <= j < base.len() && 0 <= j && #[trigger] ascii_lower(base[j]) == key {
            1int
        } else {
            0
        },
    decreases base.len() - k,
{
    if k < 0 || k >= base.len() {
    } else {
        let hit = !found && ascii_lower(base[k]) == key;
        let first = seq![
            PieceV {
                text: seq![base[k]],
                fg: Some(
                    if hit {
                        Tint::Red
                    } else {
                        t
                    },
                ),
                bg: Shade::Reset,
                bold: true,
            },
        ];
        lemma_keyed_chars_reds(base, k + 1, key, found || hit, t);
        lemma_reds_append(first, keyed_chars(base, k + 1, key, found || hit, t));
        assert(first.drop_first() =~= Seq::<PieceV>::empty());
        assert(reds(Seq::<PieceV>::empty()) == 0);
        assert(reds(first) == if hit {
            1int
        } else {
            0
        });
        if hit {
            assert(ascii_lower(base[k]) == key);
        }
        if !found && !hit {
            if exists|j: int| k <= j < base.len() && 0 <= j && #[trigger] ascii_lower(base[j]) == key {
                let j = choose|j: int| k <= j < base.len() && 0 <= j && #[trigger] ascii_lower(base[j]) == key;
                assert(j != k);
                assert(k + 1 <= j);
            }
        }
    }
}

/// A keyed title marks exactly one letter in red when the base holds a
/// letter that is the key in lower case, and none otherwise.
pub proof fn lemma_keyed_title(base: Seq<char>, count: Option<usize>, key: char, active: bool)
    ensures
        reds(keyed_block(base, count, key, active).title) == if exists|j: int|
            0 <= j < base.len() && #[trigger] ascii_lower(base[j]) == key {
            1int
        } else {
            0
        },
{
    let t = border_tint(active);
    let chars = keyed_chars(base, 0, key, false, t);
    let tail = match count {
        Some(n) => seq![PieceV { text: " ("@ + decimal(n as nat) + ")"@, fg: Some(t), bg: Shade::Reset, bold: true }],
        None => Seq::<PieceV>::empty(),
    };
    lemma_keyed_chars_reds(base, 0, key, false, t);
    lemma_reds_append(seq![raw(" "@)], chars);
    lemma_reds_append(seq![raw(" "@)] + chars, tail);
    lemma_reds_append(seq![raw(" "@)] + chars + tail, seq![raw(" "@)]);
    assert(seq![raw(" "@)].drop_first() =~= Seq::<PieceV>::empty());
    assert(tail.len() > 0 ==> tail.drop_first() =~= Seq::<PieceV>::empty());
    assert(reds(Seq::<PieceV>::empty()) == 0);
    assert(reds(tail) == 0) by {
        if tail.len() > 0 {
            assert(tail.drop_first() =~= Seq::<PieceV>::empty());
        }
    }
    assert(reds(seq![raw(" "@)]) == 0);
}

/// A block whose title marks the key that focuses it, with an item count
/// where there is one.
pub open spec fn keyed_block(base: Seq<char>, count: Option<usize>, key: char, active: bool) -> BlockV {
    let t = border_tint(active);
    BlockV {
        title: seq![raw(" "@)] + keyed_chars(base, 0, key, false, t) + (match count {
            Some(n) => seq![PieceV { text: " ("@ + decimal(n as nat) + ")"@, fg: Some(t), bg: Shade::Reset, bold: true }],
            None => seq![],
        }) + seq![raw(" "@)],
        border: t,
        fill: Shade::Reset,
    }
}

/// A bordered block whose title shows, in red, the first letter that is
/// `key_char` in lower case, and the count in brackets when given.
pub fn make_block_keyed(base: &str, count: Option<usize>, key_char: char, active: bool) -> (b: BlockView)
    ensures
        b.model() == keyed_block(base@, count, key_char, active),
{
    let t = border_of(active);
    let mut spans: Vec<Piece> = Vec::new();
    push_piece(&mut spans, Piece { text: String::from_str(" "), fg: None, bg: Shade::Reset, bold: false });
    let mut found = false;
    let mut k: usize = 0;
    let ghost start = line_model(spans@);
    proof {
        assert(start + keyed_chars(base@, 0, key_char, false, t) == start + keyed_chars(base@, k as int, key_char, found, t));
    }
    let cs = chars_of(base);
    while k < cs.len()
        invariant
            cs@ == base@,
            k <= cs.len(),
            start == seq![raw(" "@)],
            line_model(spans@) + keyed_chars(base@, k as int, key_char, found, t) == start + keyed_chars(
                base@,
                0,
                key_char,
                false,
                t,
            ),
        decreases cs.len() - k,
    {
        let ghost before = line_model(spans@);
        let ghost f0 = found;
        let c = cs[k];
        let hit = !found && to_ascii_lower(c) == key_char;
        let mut text = String::new();
        push_char(&mut text, c);
        push_piece(
            &mut spans,
            Piece {
                text,
                fg: Some(
                    if hit {
                        Tint::Red
                    } else {
                        t
                    },
                ),
                bg: Shade::Reset,
                bold: true,
            },
        );
        if hit {
            found = true;
        }
        k += 1;
        proof {
            assert(text@ =~= seq![c]);
            assert(line_model(spans@) + keyed_chars(base@, k as int, key_char, found, t) =~= before + keyed_chars(
                base@,
                k - 1,
                key_char,
                f0,
                t,
            ));
        }
    }
    let ghost mid = line_model(spans@);
    proof {
        assert(keyed_chars(base@, k as int, key_char, found, t) =~= seq![]);
        assert(mid =~= start + keyed_chars(base@, 0, key_char, false, t));
    }
    match count {
        Some(n) => {
            let mut text = String::from_str(" (");
            push_decimal(&mut text, n);
            text.append(")");
            push_piece(&mut spans, Piece { text, fg: Some(t), bg: Shade::Reset, bold: true });
        },
        None => {},
    }
    push_piece(&mut spans, Piece { text: String::from_str(" "), fg: None, bg: Shade::Reset, bold: false });
    proof {
        assert(line_model(spans@) =~= keyed_block(base@, count, key_char, active).title);
    }
    BlockView { title: spans, border: t, fill: Shade::Reset }
}

/// A footer pill: the key in bold on a gray pill, the description on a
/// magenta pill, then a space.
pub open spec fn pill(key: Seq<char>, desc: Seq<char>) -> Seq<PieceV> {
    seq![
        PieceV { text: " "@ + key + " "@, fg: Some(Tint::Fg), bg: Shade::KeyPill, bold: true },
        PieceV { text: " "@ + desc + " "@, fg: Some(Tint::Dark), bg: Shade::DescPill, bold: false },
        raw(" "@),
    ]
}

fn padded(s: &str) -> (out: String)
    ensures
        out@ == " "@ + s@ + " "@,
{
    let mut out = String::from_str(" ");
    out.append(s);
    out.append(" ");
    out
}

/// The pieces of a footer pill for `key` and what it does.
pub fn footer_pill(key: &str, desc: &str) -> (pieces: Vec<Piece>)
    ensures
        line_model(pieces@) == pill(key@, desc@),
{
    let mut v: Vec<Piece> = Vec::new();
    push_piece(&mut v, Piece { text: padded(key), fg: Some(Tint::Fg), bg: Shade::KeyPill, bold: true });
    push_piece(&mut v, Piece { text: padded(desc), fg: Some(Tint::Dark), bg: Shade::DescPill, bold: false });
    push_piece(&mut v, Piece { text: String::from_str(" "), fg: None, bg: Shade::Reset, bold: false });
    proof {
        assert(line_model(v@) =~= pill(key@, desc@));
    }
    v
}

} // verus!
