use vstd::prelude::*;

use crate::browse::{name_tint, node_name_color, Tint};
use crate::panes::{boundary_at, icon_of, line_model, node_icon, row_shade, shade_of, Piece, PieceV, Shade};
use crate::paths::{join_dots, join_path, lowercase_of, occurs_at, texts, to_lowercase};
use crate::text::{chars_of, string_of};
use crate::tree::{ConfigNode, Node};
use crate::tree_diff::{get_tag, tag_map, DiffContext, DiffTag};
use crate::values::{
    byte_len, byte_prefix, lemma_fitting_le, lemma_utf8_len_monotone, lemma_utf8_len_take, on_boundary, prefix_bytes,
    utf8_len,
};

verus! {

// ---------------------------------------------------------------------------
// Finding the query in a path
// ---------------------------------------------------------------------------

/// The first position, at `i` or after it, where `needle` occurs in `hay`.
pub open spec fn find_from(hay: Seq<char>, needle: Seq<char>, i: int) -> Option<int>
    decreases hay.len() - i,
{
    if i < 0 || i + needle.len() > hay.len() {
        None
    } else if occurs_at(hay, needle, i) {
        Some(i)
    } else if i >= hay.len() {
        None
    } else {
        find_from(hay, needle, i + 1)
    }
}

/// The byte offset, in the lowercase path, where the lowercase query first
/// occurs; none for an empty query.
pub open spec fn match_start(display: Seq<char>, query: Seq<char>) -> Option<int> {
    let ld = lowercase_of(display);
    let lq = lowercase_of(query);
    if lq.len() == 0 {
        None
    } else {
        match find_from(ld, lq, 0) {
            Some(i) => Some(utf8_len(ld.take(i)) as int),
            None => None,
        }
    }
}

/// The byte range that is highlighted: from the match, as long as the query
/// is in bytes.
pub open spec fn match_range(display: Seq<char>, query: Seq<char>) -> Option<(int, int)> {
    match match_start(display, query) {
        Some(s) => Some((s, s + utf8_len(query))),
        None => None,
    }
}

/// The first character index at which `n` occurs in `h`.
fn find_chars(h: &Vec<char>, n: &Vec<char>) -> (r: Option<usize>)
    ensures
        match r {
            Some(i) => find_from(h@, n@, 0) == Some(i as int),
            None => find_from(h@, n@, 0) is None,
        },
{
    if n.len() > h.len() {
        return None;
    }
    let mut i: usize = 0;
    while i <= h.len() - n.len()
        invariant
            n.len() <= h.len(),
            i <= h.len() - n.len() + 1,
            find_from(h@, n@, 0) == find_from(h@, n@, i as int),
        decreases h.len() + 1 - i,
    {
        let mut j: usize = 0;
        while j < n.len() && h[i + j] == n[j]
            invariant
                i + n.len() <= h.len(),
                j <= n.len(),
                forall|k: int| 0 <= k < j ==> h@[i + k] == n@[k],
            decreases n.len() - j,
        {
            j += 1;
        }
        if j == n.len() {
            proof {
                assert(h@.subrange(i as int, i + n@.len()) =~= n@);
            }
            return Some(i);
        }
        proof {
            assert(!occurs_at(h@, n@, i as int)) by {
                if occurs_at(h@, n@, i as int) {
                    assert(h@.subrange(i as int, i + n@.len())[j as int] == h@[i + j]);
                }
            }
        }
        i += 1;
    }
    None
}

/// The number of bytes of the first `i` characters of `cs`.
fn bytes_before(cs: &Vec<char>, i: usize) -> (n: usize)
    requires
        i <= cs.len(),
    ensures
        n == utf8_len(cs@.take(i as int)),
{
    let mut p: Vec<char> = Vec::new();
    let mut k: usize = 0;
    while k < i
        invariant
            k <= i <= cs.len(),
            p@ == cs@.take(k as int),
        decreases i - k,
    {
        p.push(cs[k]);
        k += 1;
        proof {
            assert(p@ =~= cs@.take(k as int));
        }
    }
    let s = string_of(&p);
    byte_len(s.as_str())
}

/// The characters of `cs` from index `from` up to index `to`.
fn chars_between(cs: &Vec<char>, from: usize, to: usize) -> (s: String)
    requires
        from <= to <= cs.len(),
    ensures
        s@ == cs@.subrange(from as int, to as int),
{
    let mut p: Vec<char> = Vec::new();
    let mut k: usize = from;
    while k < to
        invariant
            from <= k <= to <= cs.len(),
            p@ == cs@.subrange(from as int, k as int),
        decreases to - k,
    {
        p.push(cs[k]);
        k += 1;
        proof {
            assert(p@ =~= cs@.subrange(from as int, k as int));
        }
    }
    string_of(&p)
}

/// Where the lowercase query first occurs in the lowercase path, in bytes.
fn find_match(display: &String, query: &String) -> (r: Option<usize>)
    ensures
        match r {
            Some(s) => match_start(display@, query@) == Some(s as int),
            None => match_start(display@, query@) is None,
        },
{
    let ld = to_lowercase(display);
    let lq = to_lowercase(query);
    let lqc = chars_of(lq.as_str());
    if lqc.len() == 0 {
        return None;
    }
    let ldc = chars_of(ld.as_str());
    match find_chars(&ldc, &lqc) {
        Some(i) => {
            proof {
                lemma_find_bound(ldc@, lqc@, 0);
            }
            Some(bytes_before(&ldc, i))
        },
        None => None,
    }
}

proof fn lemma_find_bound(hay: Seq<char>, needle: Seq<char>, i: int)
    ensures
        find_from(hay, needle, i) matches Some(k) ==> i <= k && k + needle.len() <= hay.len(),
    decreases hay.len() - i,
{
    if !(i < 0 || i + needle.len() > hay.len()) && !occurs_at(hay, needle, i) && i < hay.len() {
        lemma_find_bound(hay, needle, i + 1);
    }
}

// ---------------------------------------------------------------------------
// The pieces of a result line
// ---------------------------------------------------------------------------

/// Highlighted text: white and bold on the highlight background.
pub open spec fn lit(text: Seq<char>) -> PieceV {
    PieceV { text, fg: Some(Tint::White), bg: Shade::Highlight, bold: true }
}

/// Bold text in the segment's color on the row's background.
pub open spec fn seg_text(text: Seq<char>, color: Tint, bg: Shade) -> PieceV {
    PieceV { text, fg: Some(color), bg, bold: true }
}

/// Whether byte `pos` falls in the highlighted range.
pub open spec fn in_range(hl: Option<(int, int)>, pos: int) -> bool {
    hl matches Some(r) && r.0 <= pos < r.1
}

/// Whether the highlighted range meets the bytes from `start` to `end`.
pub open spec fn meets(hl: Option<(int, int)>, start: int, end: int) -> bool {
    hl matches Some(r) && r.0 < end && r.1 > start
}

/// The dot before a segment at byte `pos`: highlighted inside the range,
/// grey otherwise.
pub open spec fn dot_piece(pos: int, hl: Option<(int, int)>, bg: Shade) -> PieceV {
    if in_range(hl, pos) {
        lit("."@)
    } else {
        PieceV { text: "."@, fg: Some(Tint::Comment), bg, bold: false }
    }
}

/// Where the highlight starts and ends inside a segment that begins at byte
/// `start` and is `len` bytes long, in bytes from the segment's start.
pub open spec fn cut_points(hl: Option<(int, int)>, start: int, len: int) -> (int, int) {
    let r = hl->0;
    let a = if r.0 > start { r.0 } else { start };
    let b = if r.1 < start + len { r.1 } else { start + len };
    (a - start, b - start)
}

/// The pieces of a segment that begins at byte `start`: the part before the
/// highlight, the highlighted part and the part after it, each only where it
/// is not empty (the highlighted part always).
pub open spec fn seg_pieces(seg: Seq<char>, start: int, hl: Option<(int, int)>, color: Tint, bg: Shade) -> Seq<PieceV> {
    let len = utf8_len(seg) as int;
    if meets(hl, start, start + len) {
        let (a, b) = cut_points(hl, start, len);
        let pa = byte_prefix(seg, a).len() as int;
        let pb = byte_prefix(seg, b).len() as int;
        (if a > 0 {
            seq![seg_text(seg.take(pa), color, bg)]
        } else {
            seq![]
        }) + seq![lit(seg.subrange(pa, pb))] + (if b < len {
            seq![seg_text(seg.skip(pb), color, bg)]
        } else {
            seq![]
        })
    } else {
        seq![seg_text(seg, color, bg)]
    }
}

/// A segment can be cut where the highlight starts and ends (slicing there
/// would panic otherwise).
pub open spec fn seg_ok(seg: Seq<char>, start: int, hl: Option<(int, int)>) -> bool {
    let len = utf8_len(seg) as int;
    meets(hl, start, start + len) ==> {
        let (a, b) = cut_points(hl, start, len);
        on_boundary(seg, a) && on_boundary(seg, b)
    }
}

/// The pieces of the segments from `k` on, the segment `k` starting at byte
/// `pos` (after its dot); the last segment in `leaf`, the others in blue.
pub open spec fn result_pieces(
    path: Seq<Seq<char>>,
    k: int,
    pos: int,
    hl: Option<(int, int)>,
    leaf: Tint,
    bg: Shade,
) -> Seq<PieceV>
    decreases path.len() - k,
{
    if k < 0 || k >= path.len() {
        seq![]
    } else {
        let start = if k > 0 {
            pos + 1
        } else {
            pos
        };
        let color = if k == path.len() - 1 {
            leaf
        } else {
            Tint::Blue
        };
        (if k > 0 {
            seq![dot_piece(pos, hl, bg)]
        } else {
            seq![]
        }) + seg_pieces(path[k], start, hl, color, bg) + result_pieces(
            path,
            k + 1,
            start + utf8_len(path[k]),
            hl,
            leaf,
            bg,
        )
    }
}

/// Every segment from `k` on can be cut, and its offsets fit in a `usize`.
pub open spec fn result_ok(path: Seq<Seq<char>>, k: int, pos: int, hl: Option<(int, int)>) -> bool
    decreases path.len() - k,
{
    if k < 0 || k >= path.len() {
        true
    } else {
        let start = if k > 0 {
            pos + 1
        } else {
            pos
        };
        &&& start + utf8_len(path[k]) + 4 <= usize::MAX
        &&& seg_ok(path[k], start, hl)
        &&& result_ok(path, k + 1, start + utf8_len(path[k]), hl)
    }
}

/// The tag that a diff gives a search result.
pub open spec fn result_tag(tags: Option<Map<Seq<char>, DiffTag>>, dot: Seq<char>) -> Option<DiffTag> {
    match tags {
        Some(t) => if t.contains_key(dot) {
            Some(t[dot])
        } else {
            None
        },
        None => None,
    }
}

/// A search result line: the node's icon (a grey `?` for a path that leads
/// nowhere), then the segments joined by dots, the parents in bold blue and
/// the last in the node's color, with the first case-insensitive match of
/// the query highlighted. The background follows the cursor and the diff
/// tag of the path.
pub open spec fn search_line(
    path: Seq<Seq<char>>,
    query: Seq<char>,
    selected: bool,
    node: Option<Node>,
    tags: Option<Map<Seq<char>, DiffTag>>,
) -> Seq<PieceV> {
    let icon = match node {
        Some(n) => icon_of(n),
        None => ("?"@, Tint::Comment),
    };
    let leaf = match node {
        Some(n) => name_tint(n),
        None => Tint::Fg,
    };
    let bg = row_shade(result_tag(tags, join_dots(path)), selected, false);
    seq![PieceV { text: icon.0 + " "@, fg: Some(icon.1), bg, bold: false }] + result_pieces(
        path,
        0,
        0,
        match_range(join_dots(path), query),
        leaf,
        bg,
    )
}

/// Whether a search result line can be made: the highlight ends within a
/// `usize` and every segment can be cut where it starts and ends.
pub open spec fn search_line_ok(path: Seq<Seq<char>>, query: Seq<char>) -> bool {
    let hl = match_range(join_dots(path), query);
    &&& (hl matches Some(r) ==> r.1 <= usize::MAX)
    &&& result_ok(path, 0, 0, hl)
}

fn push_piece(line: &mut Vec<Piece>, p: Piece)
    ensures
        line_model(final(line)@) == line_model(old(line)@).push(p.model()),
{
    line.push(p);
    proof {
        assert(line_model(line@) =~= line_model(old(line)@).push(p.model()));
    }
}

/// The range of byte offsets as integers.
pub open spec fn range_of(hl: Option<(usize, usize)>) -> Option<(int, int)> {
    match hl {
        Some(p) => Some((p.0 as int, p.1 as int)),
        None => None,
    }
}

/// Appends the pieces of a segment that begins at byte `start`.
fn push_seg_pieces(line: &mut Vec<Piece>, seg: &String, start: usize, hl: Option<(usize, usize)>, color: Tint, bg: Shade)
    requires
        start + utf8_len(seg@) + 4 <= usize::MAX,
        seg_ok(seg@, start as int, range_of(hl)),
        hl matches Some(r) ==> r.0 <= r.1,
    ensures
        line_model(final(line)@) == line_model(old(line)@) + seg_pieces(seg@, start as int, range_of(hl), color, bg),
{
    let ghost h = range_of(hl);
    let len = byte_len(seg.as_str());
    let end = start + len;
    let cut = match hl {
        Some((hs, he)) => hs < end && he > start,
        None => false,
    };
    if !cut {
        push_piece(line, Piece { text: copy_text(seg), fg: Some(color), bg, bold: true });
        proof {
            assert(line_model(line@) =~= line_model(old(line)@) + seg_pieces(seg@, start as int, h, color, bg));
        }
        return;
    }
    let (hs, he) = match hl {
        Some(p) => p,
        None => (0, 0),
    };
    let a = (if hs > start {
        hs
    } else {
        start
    }) - start;
    let b = (if he < end {
        he
    } else {
        end
    }) - start;
    let cs = chars_of(seg.as_str());
    let pa = prefix_bytes(&cs, a).len();
    let pb = prefix_bytes(&cs, b).len();
    proof {
        lemma_fitting_le(seg@, a as int, 0);
        lemma_fitting_le(seg@, b as int, 0);
        lemma_boundaries_ordered(seg@, a as int, b as int);
    }
    if a > 0 {
        push_piece(line, Piece { text: chars_between(&cs, 0, pa), fg: Some(color), bg, bold: true });
        proof {
            assert(cs@.subrange(0, pa as int) =~= seg@.take(pa as int));
        }
    }
    push_piece(line, Piece { text: chars_between(&cs, pa, pb), fg: Some(Tint::White), bg: Shade::Highlight, bold: true });
    if b < len {
        push_piece(line, Piece { text: chars_between(&cs, pb, cs.len()), fg: Some(color), bg, bold: true });
        proof {
            assert(cs@.subrange(pb as int, cs.len() as int) =~= seg@.skip(pb as int));
        }
    }
    proof {
        assert(line_model(line@) =~= line_model(old(line)@) + seg_pieces(seg@, start as int, h, color, bg));
    }
}

/// At two boundaries, the earlier byte offset takes no more characters.
proof fn lemma_boundaries_ordered(s: Seq<char>, a: int, b: int)
    requires
        0 <= a <= b,
        on_boundary(s, a),
        on_boundary(s, b),
    ensures
        byte_prefix(s, a).len() <= byte_prefix(s, b).len() <= s.len(),
{
    lemma_fitting_le(s, a, 0);
    lemma_fitting_le(s, b, 0);
    let pa = byte_prefix(s, a).len() as int;
    let pb = byte_prefix(s, b).len() as int;
    if pa > pb {
        lemma_utf8_len_take(s, pb);
        lemma_utf8_len_monotone(s, pb + 1, pa);
        assert(s.take(pa) == byte_prefix(s, a));
        assert(s.take(pb) == byte_prefix(s, b));
    }
}

fn copy_text(s: &String) -> (out: String)
    ensures
        out@ == s@,
{
    let cs = chars_of(s.as_str());
    string_of(&cs)
}

/// The models of an optional node and of an optional diff's tags.
pub open spec fn node_of(node: Option<&ConfigNode>) -> Option<Node> {
    match node {
        Some(n) => Some(n.model()),
        None => None,
    }
}

/// The tags of an optional diff.
pub open spec fn tags_of(diff_ctx: Option<&DiffContext>) -> Option<Map<Seq<char>, DiffTag>> {
    match diff_ctx {
        Some(c) => Some(tag_map(c.tags@)),
        None => None,
    }
}

/// The byte range to highlight, as `match_range` states it.
fn highlight_range(display: &String, query: &String) -> (r: Option<(usize, usize)>)
    requires
        match_range(display@, query@) matches Some(m) ==> m.1 <= usize::MAX,
    ensures
        range_of(r) == match_range(display@, query@),
        r matches Some(p) ==> p.0 <= p.1,
{
    match find_match(display, query) {
        Some(hs) => {
            let ql = byte_len(query.as_str());
            Some((hs, hs + ql))
        },
        None => None,
    }
}

/// Where segment `k` begins, its dot at `pos` passed.
pub open spec fn seg_start(k: int, pos: int) -> int {
    if k > 0 {
        pos + 1
    } else {
        pos
    }
}

/// The color of segment `k`: the leaf's for the last, blue for the others.
pub open spec fn seg_color(path: Seq<Seq<char>>, k: int, leaf: Tint) -> Tint {
    if k == path.len() - 1 {
        leaf
    } else {
        Tint::Blue
    }
}

/// The dot before segment `k`, none before the first.
pub open spec fn dots_before(k: int, pos: int, hl: Option<(int, int)>, bg: Shade) -> Seq<PieceV> {
    if k > 0 {
        seq![dot_piece(pos, hl, bg)]
    } else {
        seq![]
    }
}

proof fn lemma_result_step(path: Seq<Seq<char>>, k: int, pos: int, hl: Option<(int, int)>, leaf: Tint, bg: Shade)
    requires
        0 <= k < path.len(),
    ensures
        result_pieces(path, k, pos, hl, leaf, bg) == dots_before(k, pos, hl, bg) + seg_pieces(
            path[k],
            seg_start(k, pos),
            hl,
            seg_color(path, k, leaf),
            bg,
        ) + result_pieces(path, k + 1, seg_start(k, pos) + utf8_len(path[k]), hl, leaf, bg),
        result_ok(path, k, pos, hl) ==> {
            &&& seg_start(k, pos) + utf8_len(path[k]) + 4 <= usize::MAX
            &&& seg_ok(path[k], seg_start(k, pos), hl)
            &&& result_ok(path, k + 1, seg_start(k, pos) + utf8_len(path[k]), hl)
        },
{
}

/// A line of the search results: the node's icon, then the path with its
/// parents in bold blue and its last segment in the node's color, and the
/// first case-insensitive match of the query highlighted. The width is not
/// used: the line is cut by the pane.
#[verifier::rlimit(40)]
pub fn render_search_result_line(
    path: &Vec<String>,
    query: &String,
    is_selected: bool,
    _width: u16,
    node: Option<&ConfigNode>,
    diff_ctx: Option<&DiffContext>,
) -> (line: Vec<Piece>)
    requires
        search_line_ok(texts(path@), query@),
        diff_ctx matches Some(c) ==> c.wf(),
    ensures
        line_model(line@) == search_line(texts(path@), query@, is_selected, node_of(node), tags_of(diff_ctx)),
{
    let ghost tp = texts(path@);
    let (icon, ic) = match node {
        Some(n) => node_icon(n),
        None => (String::from_str("?"), Tint::Comment),
    };
    let leaf = match node {
        Some(n) => node_name_color(n),
        None => Tint::Fg,
    };
    let display = join_path(path);
    let tag = match diff_ctx {
        Some(ctx) => get_tag(&ctx.tags, &display),
        None => None,
    };
    let bg = shade_of(tag, is_selected, false);
    let hl = highlight_range(&display, query);
    let ghost h = range_of(hl);
    let ghost target = search_line(tp, query@, is_selected, node_of(node), tags_of(diff_ctx));
    let mut text = icon;
    text.append(" ");
    let mut line: Vec<Piece> = Vec::new();
    push_piece(&mut line, Piece { text, fg: Some(ic), bg, bold: false });
    proof {
        assert(line_model(line@) + result_pieces(tp, 0, 0, h, leaf, bg) =~= target);
    }
    let mut pos: usize = 0;
    let mut k: usize = 0;
    while k < path.len()
        invariant
            tp == texts(path@),
            h == range_of(hl),
            hl matches Some(r) ==> r.0 <= r.1,
            k <= path.len(),
            result_ok(tp, k as int, pos as int, h),
            line_model(line@) + result_pieces(tp, k as int, pos as int, h, leaf, bg) == target,
        decreases path.len() - k,
    {
        let ghost before = line_model(line@);
        let ghost rest = result_pieces(tp, k + 1, seg_start(k as int, pos as int) + utf8_len(tp[k as int]), h, leaf, bg);
        let ghost segp = seg_pieces(tp[k as int], seg_start(k as int, pos as int), h, seg_color(tp, k as int, leaf), bg);
        let ghost dots = dots_before(k as int, pos as int, h, bg);
        proof {
            lemma_result_step(tp, k as int, pos as int, h, leaf, bg);
            assert(tp[k as int] == path@[k as int]@);
        }
        let start = if k > 0 {
            pos + 1
        } else {
            pos
        };
        if k > 0 {
            let in_hl = match hl {
                Some((hs, he)) => pos >= hs && pos < he,
                None => false,
            };
            let dot = if in_hl {
                Piece { text: String::from_str("."), fg: Some(Tint::White), bg: Shade::Highlight, bold: true }
            } else {
                Piece { text: String::from_str("."), fg: Some(Tint::Comment), bg, bold: false }
            };
            push_piece(&mut line, dot);
        }
        proof {
            assert(line_model(line@) =~= before + dots);
        }
        let color = if k == path.len() - 1 {
            leaf
        } else {
            Tint::Blue
        };
        push_seg_pieces(&mut line, &path[k], start, hl, color, bg);
        let len = byte_len(path[k].as_str());
        pos = start + len;
        k += 1;
        proof {
            assert(line_model(line@) + rest =~= before + (dots + segp + rest));
        }
    }
    line
}

/// Appends nothing; says whether a segment that begins at byte `start` can
/// be cut where the highlight starts and ends.
fn seg_fits(seg: &String, start: usize, hl: Option<(usize, usize)>) -> (r: bool)
    requires
        start + utf8_len(seg@) + 4 <= usize::MAX,
    ensures
        r == seg_ok(seg@, start as int, range_of(hl)),
{
    let len = byte_len(seg.as_str());
    let end = start + len;
    match hl {
        Some((hs, he)) => {
            if hs < end && he > start {
                let a = (if hs > start {
                    hs
                } else {
                    start
                }) - start;
                let b = (if he < end {
                    he
                } else {
                    end
                }) - start;
                boundary_at(seg, a) && boundary_at(seg, b)
            } else {
                true
            }
        },
        None => true,
    }
}

/// Whether a search result line can be made.
pub fn search_line_fits(path: &Vec<String>, query: &String) -> (r: bool)
    ensures
        r == search_line_ok(texts(path@), query@),
{
    let ghost tp = texts(path@);
    let display = join_path(path);
    let hl: Option<(usize, usize)> = match find_match(&display, query) {
        Some(hs) => {
            let ql = byte_len(query.as_str());
            if hs > usize::MAX - ql {
                return false;
            }
            Some((hs, hs + ql))
        },
        None => None,
    };
    let ghost h = range_of(hl);
    let mut pos: usize = 0;
    let mut k: usize = 0;
    while k < path.len()
        invariant
            tp == texts(path@),
            h == range_of(hl),
            h == match_range(join_dots(tp), query@),
            h matches Some(r) ==> r.1 <= usize::MAX,
            k <= path.len(),
            result_ok(tp, 0, 0, h) == result_ok(tp, k as int, pos as int, h),
        decreases path.len() - k,
    {
        if k > 0 && pos == usize::MAX {
            return false;
        }
        let start = if k > 0 {
            pos + 1
        } else {
            pos
        };
        let len = byte_len(path[k].as_str());
        proof {
            assert(tp[k as int] == path@[k as int]@);
        }
        if len > usize::MAX - 4 || start > usize::MAX - 4 - len {
            return false;
        }
        if !seg_fits(&path[k], start, hl) {
            return false;
        }
        pos = start + len;
        k += 1;
    }
    true
}

/// A search result line, or none where `search_line_ok` does not hold and
/// the line cannot be made.
pub fn search_result_line(
    path: &Vec<String>,
    query: &String,
    is_selected: bool,
    width: u16,
    node: Option<&ConfigNode>,
    diff_ctx: Option<&DiffContext>,
) -> (r: Option<Vec<Piece>>)
    requires
        diff_ctx matches Some(c) ==> c.wf(),
    ensures
        match r {
            Some(line) => search_line_ok(texts(path@), query@) && line_model(line@) == search_line(
                texts(path@),
                query@,
                is_selected,
                node_of(node),
                tags_of(diff_ctx),
            ),
            None => !search_line_ok(texts(path@), query@),
        },
{
    if search_line_fits(path, query) {
        Some(render_search_result_line(path, query, is_selected, width, node, diff_ctx))
    } else {
        None
    }
}

} // verus!
