use vstd::prelude::*;

use crate::json::{json_depth, JsonValue};
use crate::json2nix::{convert, nix_document};
use crate::keys::{is_char, is_quit, quits, sat_sub, Key, KeyPress};
use crate::text::copy_string;

verus! {

// ---------------------------------------------------------------------------
// Line changes
// ---------------------------------------------------------------------------

/// The kind of a change in a line diff.
#[derive(PartialEq, Eq, Structural, Clone, Copy, Debug)]
pub enum ChangeKind {
    Equal,
    Delete,
    Insert,
}

/// The line changes that `similar` computes between two texts.
pub uninterp spec fn line_changes_of(old: Seq<char>, new: Seq<char>) -> Seq<(ChangeKind, Seq<char>)>;

/// The unified diff text that `similar` writes for two texts under the two
/// header names.
pub uninterp spec fn unified_diff_of(old: Seq<char>, new: Seq<char>, old_name: Seq<char>, new_name: Seq<char>) -> Seq<char>;

/// The changes of a line diff of `old` and `new`, each with its line as it
/// stands in the text (`similar::TextDiff::from_lines`, then
/// `iter_all_changes`). The contract names the result and says nothing of the
/// diffing algorithm; `similar` with no deadline set is deterministic. It
/// states what the changes keep of the texts: the lines are the texts cut
/// after each line feed and after each carriage return that no line feed
/// follows, the operations cover both texts in order, and an equal change
/// carries a line that both texts hold, so the equal and deleted lines make
/// up `old` and the equal and inserted lines `new`. Where each line ends is
/// not stated.
#[verifier::external_body]
fn line_changes(old: &str, new: &str) -> (out: Vec<(ChangeKind, String)>)
    ensures
        out@.len() == line_changes_of(old@, new@).len(),
        forall|i: int|
            0 <= i < out@.len() ==> (#[trigger] out@[i]).0 == line_changes_of(old@, new@)[i].0
                && out@[i].1@ == line_changes_of(old@, new@)[i].1,
        side_text(changes_model(out@), ChangeKind::Delete) == old@,
        side_text(changes_model(out@), ChangeKind::Insert) == new@,
{
    let diff = similar::TextDiff::from_lines(old, new);
    let mut out = Vec::new();
    for change in diff.iter_all_changes() {
        let kind = match change.tag() {
            similar::ChangeTag::Equal => ChangeKind::Equal,
            similar::ChangeTag::Delete => ChangeKind::Delete,
            similar::ChangeTag::Insert => ChangeKind::Insert,
        };
        out.push((kind, change.value().to_string()));
    }
    out
}

/// The changes with their lines as text.
pub open spec fn changes_model(v: Seq<(ChangeKind, String)>) -> Seq<(ChangeKind, Seq<char>)> {
    Seq::new(v.len(), |i: int| (v[i].0, v[i].1@))
}

/// The lines of the changes that one side holds (equal lines, and deleted
/// lines for the old side or inserted lines for the new one), joined.
pub open spec fn side_text(cs: Seq<(ChangeKind, Seq<char>)>, side: ChangeKind) -> Seq<char>
    decreases cs.len(),
{
    if cs.len() == 0 {
        seq![]
    } else {
        (if cs[0].0 == ChangeKind::Equal || cs[0].0 == side {
            cs[0].1
        } else {
            seq![]
        }) + side_text(cs.drop_first(), side)
    }
}

/// The lines of the changes that one side holds, in order, each without
/// its trailing line feeds.
pub open spec fn side_lines(cs: Seq<(ChangeKind, Seq<char>)>, side: ChangeKind) -> Seq<Seq<char>>
    decreases cs.len(),
{
    if cs.len() == 0 {
        seq![]
    } else {
        (if cs[0].0 == ChangeKind::Equal || cs[0].0 == side {
            seq![trim_newlines(cs[0].1)]
        } else {
            seq![]
        }) + side_lines(cs.drop_first(), side)
    }
}

/// The unified diff of two texts with the given header names
/// (`similar::TextDiff::from_lines`, `unified_diff`, `header`, written out with
/// `to_string`). The contract names the result, and states that two equal
/// texts give an empty text: their line diff is one run of equal lines, which
/// the hunk grouping drops, and the header is written only above a hunk.
#[verifier::external_body]
fn unified_diff(old: &str, new: &str, old_name: &str, new_name: &str) -> (out: String)
    ensures
        out@ == unified_diff_of(old@, new@, old_name@, new_name@),
        old@ == new@ ==> out@.len() == 0,
{
    similar::TextDiff::from_lines(old, new).unified_diff().header(old_name, new_name).to_string()
}

// ---------------------------------------------------------------------------
// Side-by-side lines
// ---------------------------------------------------------------------------

/// A paired line for side-by-side display.
pub struct DiffLine {
    pub left: Option<String>,
    pub right: Option<String>,
    pub tag: ChangeKind,
}

/// The model of a side-by-side line.
pub struct Row {
    pub left: Option<Seq<char>>,
    pub right: Option<Seq<char>>,
    pub tag: ChangeKind,
}

pub open spec fn opt_text(o: Option<String>) -> Option<Seq<char>> {
    match o {
        Some(s) => Some(s@),
        None => None,
    }
}

impl DiffLine {
    pub open spec fn row(&self) -> Row {
        Row { left: opt_text(self.left), right: opt_text(self.right), tag: self.tag }
    }
}

pub open spec fn rows_of(lines: Seq<DiffLine>) -> Seq<Row> {
    Seq::new(lines.len(), |i: int| lines[i].row())
}

/// `s` without its trailing line feeds.
pub open spec fn trim_newlines(s: Seq<char>) -> Seq<char>
    decreases s.len(),
{
    if s.len() > 0 && s.last() == '\n' {
        trim_newlines(s.drop_last())
    } else {
        s
    }
}

/// The element `k` of `s`, if there is one.
pub open spec fn get_opt(s: Seq<Seq<char>>, k: int) -> Option<Seq<char>> {
    if 0 <= k < s.len() {
        Some(s[k])
    } else {
        None
    }
}

/// Pending deletions and insertions paired up row by row: a row with both
/// sides is a modification, shown with the tag `Equal`.
pub open spec fn flush_rows(removes: Seq<Seq<char>>, inserts: Seq<Seq<char>>) -> Seq<Row> {
    let n = if removes.len() >= inserts.len() {
        removes.len()
    } else {
        inserts.len()
    };
    Seq::new(
        n,
        |k: int|
            Row {
                left: get_opt(removes, k),
                right: get_opt(inserts, k),
                tag: if k < removes.len() && k < inserts.len() {
                    ChangeKind::Equal
                } else if k < removes.len() {
                    ChangeKind::Delete
                } else {
                    ChangeKind::Insert
                },
            },
    )
}

/// Side-by-side rows for `changes`, given deletions and insertions that wait
/// for their partners: an equal line flushes them and stands on both sides.
pub open spec fn pair_rows(changes: Seq<(ChangeKind, Seq<char>)>, removes: Seq<Seq<char>>, inserts: Seq<Seq<char>>) -> Seq<Row>
    decreases changes.len(),
{
    if changes.len() == 0 {
        flush_rows(removes, inserts)
    } else {
        let text = trim_newlines(changes[0].1);
        let rest = changes.drop_first();
        match changes[0].0 {
            ChangeKind::Equal => flush_rows(removes, inserts) + seq![
                Row { left: Some(text), right: Some(text), tag: ChangeKind::Equal },
            ] + pair_rows(rest, seq![], seq![]),
            ChangeKind::Delete => pair_rows(rest, removes.push(text), inserts),
            ChangeKind::Insert => pair_rows(rest, removes, inserts.push(text)),
        }
    }
}

/// The texts of one column of the rows, in order: the left column when
/// `left`, the right one otherwise.
pub open spec fn column(rows: Seq<Row>, left: bool) -> Seq<Seq<char>>
    decreases rows.len(),
{
    if rows.len() == 0 {
        seq![]
    } else {
        column(rows.drop_last(), left) + match (if left {
            rows.last().left
        } else {
            rows.last().right
        }) {
            Some(t) => seq![t],
            None => seq![],
        }
    }
}

proof fn lemma_column_append(a: Seq<Row>, b: Seq<Row>, left: bool)
    ensures
        column(a + b, left) == column(a, left) + column(b, left),
    decreases b.len(),
{
    if b.len() > 0 {
        lemma_column_append(a, b.drop_last(), left);
        assert((a + b).drop_last() =~= a + b.drop_last());
        assert((a + b).last() == b.last());
    } else {
        assert(a + b =~= a);
    }
}

proof fn lemma_column_flush(removes: Seq<Seq<char>>, inserts: Seq<Seq<char>>, left: bool, m: int)
    requires
        0 <= m <= flush_rows(removes, inserts).len(),
    ensures
        column(flush_rows(removes, inserts).take(m), left) == (if left {
            removes
        } else {
            inserts
        }).take(if m <= (if left {
            removes
        } else {
            inserts
        }).len() {
            m
        } else {
            (if left {
                removes
            } else {
                inserts
            }).len() as int
        }),
    decreases m,
{
    let f = flush_rows(removes, inserts);
    let s = if left {
        removes
    } else {
        inserts
    };
    if m > 0 {
        lemma_column_flush(removes, inserts, left, m - 1);
        assert(f.take(m).drop_last() =~= f.take(m - 1));
        assert(f.take(m).last() == f[m - 1]);
        if m <= s.len() {
            assert(s.take(m) =~= s.take(m - 1).push(s[m - 1]));
        }
    } else {
        assert(f.take(0) =~= Seq::<Row>::empty());
        assert(s.take(0) =~= Seq::<Seq<char>>::empty());
    }
}

/// The rows hold the pending lines, then the lines that the changes keep on
/// their side, in each column.
proof fn lemma_column_pairs(cs: Seq<(ChangeKind, Seq<char>)>, removes: Seq<Seq<char>>, inserts: Seq<Seq<char>>, left: bool)
    ensures
        column(pair_rows(cs, removes, inserts), left) == (if left {
            removes
        } else {
            inserts
        }) + side_lines(
            cs,
            if left {
                ChangeKind::Delete
            } else {
                ChangeKind::Insert
            },
        ),
    decreases cs.len(),
{
    let side = if left {
        ChangeKind::Delete
    } else {
        ChangeKind::Insert
    };
    let f = flush_rows(removes, inserts);
    lemma_column_flush(removes, inserts, left, f.len() as int);
    assert(f.take(f.len() as int) =~= f);
    assert(removes.take(removes.len() as int) =~= removes);
    assert(inserts.take(inserts.len() as int) =~= inserts);
    if cs.len() == 0 {
        assert(removes + seq![] =~= removes);
        assert(inserts + seq![] =~= inserts);
    } else {
        let text = trim_newlines(cs[0].1);
        let rest = cs.drop_first();
        match cs[0].0 {
            ChangeKind::Equal => {
                let row = seq![Row { left: Some(text), right: Some(text), tag: ChangeKind::Equal }];
                lemma_column_pairs(rest, seq![], seq![], left);
                lemma_column_append(f, row, left);
                lemma_column_append(f + row, pair_rows(rest, seq![], seq![]), left);
                assert(column(row, left) =~= seq![text]) by {
                    assert(row.drop_last() =~= Seq::<Row>::empty());
                    assert(column(row.drop_last(), left) == Seq::<Seq<char>>::empty());
                }
                assert(Seq::<Seq<char>>::empty() + side_lines(rest, side) =~= side_lines(rest, side));
            },
            ChangeKind::Delete => {
                lemma_column_pairs(rest, removes.push(text), inserts, left);
            },
            ChangeKind::Insert => {
                lemma_column_pairs(rest, removes, inserts.push(text), left);
            },
        }
        if left {
            assert(removes.push(text) + side_lines(rest, side) =~= removes + (seq![text] + side_lines(rest, side)));
            assert(removes + (Seq::<Seq<char>>::empty() + side_lines(rest, side)) =~= removes + side_lines(rest, side));
        } else {
            assert(inserts.push(text) + side_lines(rest, side) =~= inserts + (seq![text] + side_lines(rest, side)));
            assert(inserts + (Seq::<Seq<char>>::empty() + side_lines(rest, side)) =~= inserts + side_lines(rest, side));
        }
    }
}

/// `s` with its trailing line feeds removed (`trim_end_matches('\n')`).
fn trim_line(s: &String) -> (out: String)
    ensures
        out@ == trim_newlines(s@),
{
    let v = crate::text::chars_of(s.as_str());
    let mut n = v.len();
    proof {
        assert(v@.take(n as int) =~= v@);
    }
    while n > 0 && v[n - 1] == '\n'
        invariant
            n <= v.len(),
            trim_newlines(v@) == trim_newlines(v@.take(n as int)),
        decreases n,
    {
        proof {
            assert(v@.take(n as int).drop_last() =~= v@.take(n - 1));
        }
        n -= 1;
    }
    proof {
        assert(trim_newlines(v@.take(n as int)) == v@.take(n as int));
    }
    let mut prefix: Vec<char> = Vec::new();
    let mut i: usize = 0;
    while i < n
        invariant
            i <= n <= v.len(),
            prefix@ == v@.take(i as int),
        decreases n - i,
    {
        prefix.push(v[i]);
        proof {
            assert(v@.take(i + 1) =~= v@.take(i as int).push(v@[i as int]));
        }
        i += 1;
    }
    crate::text::string_of(&prefix)
}

fn opt_copy(o: Option<&String>) -> (out: Option<String>)
    ensures
        opt_text(out) == match o {
            Some(s) => Some(s@),
            None => None::<Seq<char>>,
        },
{
    match o {
        Some(s) => Some(copy_string(s)),
        None => None,
    }
}

/// Appends the rows for the pending deletions and insertions and empties them.
fn flush(lines: &mut Vec<DiffLine>, removes: &mut Vec<String>, inserts: &mut Vec<String>)
    ensures
        rows_of(final(lines)@) == rows_of(old(lines)@) + flush_rows(
            Seq::new(old(removes)@.len(), |k: int| old(removes)@[k]@),
            Seq::new(old(inserts)@.len(), |k: int| old(inserts)@[k]@),
        ),
        final(removes)@.len() == 0,
        final(inserts)@.len() == 0,
{
    let ghost rs = Seq::new(removes@.len(), |k: int| removes@[k]@);
    let ghost is = Seq::new(inserts@.len(), |k: int| inserts@[k]@);
    let ghost start = rows_of(lines@);
    let max_len = if removes.len() >= inserts.len() {
        removes.len()
    } else {
        inserts.len()
    };
    let mut i: usize = 0;
    while i < max_len
        invariant
            i <= max_len,
            max_len == if removes@.len() >= inserts@.len() {
                removes@.len()
            } else {
                inserts@.len()
            },
            rs == Seq::new(removes@.len(), |k: int| removes@[k]@),
            is == Seq::new(inserts@.len(), |k: int| inserts@[k]@),
            rows_of(lines@) == start + flush_rows(rs, is).take(i as int),
        decreases max_len - i,
    {
        let left = opt_copy(if i < removes.len() {
            Some(&removes[i])
        } else {
            None
        });
        let right = opt_copy(if i < inserts.len() {
            Some(&inserts[i])
        } else {
            None
        });
        let tag = if i < removes.len() && i < inserts.len() {
            ChangeKind::Equal
        } else if i < removes.len() {
            ChangeKind::Delete
        } else {
            ChangeKind::Insert
        };
        let ghost prev = lines@;
        lines.push(DiffLine { left, right, tag });
        proof {
            assert(lines@.last().row() == flush_rows(rs, is)[i as int]);
            assert(lines@.drop_last() == prev);
            assert(rows_of(lines@) =~= rows_of(prev).push(lines@.last().row()));
            assert(flush_rows(rs, is).take(i + 1) =~= flush_rows(rs, is).take(i as int).push(flush_rows(rs, is)[i as int]));
            assert(rows_of(lines@) =~= start + flush_rows(rs, is).take(i + 1));
        }
        i += 1;
    }
    proof {
        assert(flush_rows(rs, is).take(max_len as int) =~= flush_rows(rs, is));
    }
    removes.clear();
    inserts.clear();
}

pub open spec fn texts(v: Seq<String>) -> Seq<Seq<char>> {
    Seq::new(v.len(), |k: int| v[k]@)
}

/// Pairs a list of line changes for side-by-side display: runs of deletions
/// and insertions are matched up row by row, equal lines stand on both sides.
pub fn pair_changes(changes: &Vec<(ChangeKind, String)>) -> (lines: Vec<DiffLine>)
    ensures
        rows_of(lines@) == pair_rows(
            Seq::new(changes@.len(), |i: int| (changes@[i].0, changes@[i].1@)),
            seq![],
            seq![],
        ),
{
    let ghost cs = Seq::new(changes@.len(), |i: int| (changes@[i].0, changes@[i].1@));
    let mut lines: Vec<DiffLine> = Vec::new();
    let mut removes: Vec<String> = Vec::new();
    let mut inserts: Vec<String> = Vec::new();
    let mut i: usize = 0;
    proof {
        assert(cs.skip(0) =~= cs);
        assert(texts(removes@) =~= seq![]);
        assert(texts(inserts@) =~= seq![]);
        assert(rows_of(lines@) + pair_rows(cs, seq![], seq![]) =~= pair_rows(cs, seq![], seq![]));
    }
    while i < changes.len()
        invariant
            i <= changes.len(),
            cs == Seq::new(changes@.len(), |i: int| (changes@[i].0, changes@[i].1@)),
            pair_rows(cs, seq![], seq![]) == rows_of(lines@) + pair_rows(
                cs.skip(i as int),
                texts(removes@),
                texts(inserts@),
            ),
        decreases changes.len() - i,
    {
        let text = trim_line(&changes[i].1);
        let ghost rs0 = texts(removes@);
        let ghost is0 = texts(inserts@);
        let ghost rows0 = rows_of(lines@);
        proof {
            assert(cs.skip(i as int).drop_first() =~= cs.skip(i + 1));
            assert(cs.skip(i as int)[0] == cs[i as int]);
            assert(cs[i as int].0 == changes@[i as int].0);
            assert(text@ == trim_newlines(cs[i as int].1));
        }
        match changes[i].0 {
            ChangeKind::Equal => {
                let ghost before = rows_of(lines@);
                let ghost rs = texts(removes@);
                let ghost is = texts(inserts@);
                flush(&mut lines, &mut removes, &mut inserts);
                let t2 = copy_string(&text);
                lines.push(DiffLine { left: Some(text), right: Some(t2), tag: ChangeKind::Equal });
                proof {
                    assert(rs =~= Seq::new(rs.len(), |k: int| rs[k]));
                    assert(texts(removes@) =~= seq![]);
                    assert(texts(inserts@) =~= seq![]);
                    let row = Row { left: Some(text@), right: Some(text@), tag: ChangeKind::Equal };
                    assert(rows_of(lines@) =~= before + flush_rows(rs, is) + seq![row]);
                    assert(pair_rows(cs.skip(i as int), rs0, is0) == flush_rows(rs0, is0) + seq![row]
                        + pair_rows(cs.skip(i + 1), seq![], seq![]));
                    assert(rows_of(lines@) + pair_rows(cs.skip(i + 1), texts(removes@), texts(inserts@))
                        =~= rows0 + pair_rows(cs.skip(i as int), rs0, is0));
                }
            },
            ChangeKind::Delete => {
                removes.push(text);
                proof {
                    assert(texts(removes@) =~= rs0.push(text@));
                    assert(pair_rows(cs.skip(i as int), rs0, is0) == pair_rows(cs.skip(i + 1), rs0.push(text@), is0));
                }
            },
            ChangeKind::Insert => {
                inserts.push(text);
                proof {
                    assert(texts(inserts@) =~= is0.push(text@));
                    assert(pair_rows(cs.skip(i as int), rs0, is0) == pair_rows(cs.skip(i + 1), rs0, is0.push(text@)));
                }
            },
        }
        i += 1;
    }
    let ghost before = rows_of(lines@);
    let ghost rs = texts(removes@);
    let ghost is = texts(inserts@);
    flush(&mut lines, &mut removes, &mut inserts);
    proof {
        assert(cs.skip(changes.len() as int) =~= seq![]);
        assert(rows_of(lines@) =~= before + flush_rows(rs, is));
    }
    lines
}

/// Build paired lines for side-by-side display.
pub fn build_diff_lines(old_nix: &str, new_nix: &str) -> (lines: Vec<DiffLine>)
    ensures
        rows_of(lines@) == pair_rows(line_changes_of(old_nix@, new_nix@), seq![], seq![]),
        side_text(line_changes_of(old_nix@, new_nix@), ChangeKind::Delete) == old_nix@,
        side_text(line_changes_of(old_nix@, new_nix@), ChangeKind::Insert) == new_nix@,
        column(rows_of(lines@), true) == side_lines(line_changes_of(old_nix@, new_nix@), ChangeKind::Delete),
        column(rows_of(lines@), false) == side_lines(line_changes_of(old_nix@, new_nix@), ChangeKind::Insert),
{
    let changes = line_changes(old_nix, new_nix);
    let lines = pair_changes(&changes);
    proof {
        assert(Seq::new(changes@.len(), |i: int| (changes@[i].0, changes@[i].1@)) =~= line_changes_of(
            old_nix@,
            new_nix@,
        ));
        assert(changes_model(changes@) =~= line_changes_of(old_nix@, new_nix@));
        lemma_column_pairs(line_changes_of(old_nix@, new_nix@), seq![], seq![], true);
        lemma_column_pairs(line_changes_of(old_nix@, new_nix@), seq![], seq![], false);
        assert(Seq::<Seq<char>>::empty() + side_lines(line_changes_of(old_nix@, new_nix@), ChangeKind::Delete)
            =~= side_lines(line_changes_of(old_nix@, new_nix@), ChangeKind::Delete));
        assert(Seq::<Seq<char>>::empty() + side_lines(line_changes_of(old_nix@, new_nix@), ChangeKind::Insert)
            =~= side_lines(line_changes_of(old_nix@, new_nix@), ChangeKind::Insert));
    }
    lines
}

// ---------------------------------------------------------------------------
// Hunks and the collapsed view
// ---------------------------------------------------------------------------

/// A row that shows a change: not tagged `Equal`, or with differing sides.
pub open spec fn is_change_row(r: Row) -> bool {
    r.tag != ChangeKind::Equal || r.left != r.right
}

/// A row where a run of changes begins.
pub open spec fn is_hunk_start(rows: Seq<Row>, i: int) -> bool {
    &&& 0 <= i < rows.len()
    &&& is_change_row(rows[i])
    &&& (i == 0 || !is_change_row(rows[i - 1]))
}

fn same_opt(a: &Option<String>, b: &Option<String>) -> (r: bool)
    ensures
        r == (opt_text(*a) == opt_text(*b)),
{
    match (a, b) {
        (Some(x), Some(y)) => x.eq(y),
        (None, None) => true,
        _ => false,
    }
}

fn line_is_change(l: &DiffLine) -> (r: bool)
    ensures
        r == is_change_row(l.row()),
{
    let not_equal = match l.tag {
        ChangeKind::Equal => false,
        _ => true,
    };
    not_equal || !same_opt(&l.left, &l.right)
}

/// Find hunk start positions (lines where changes begin after equal lines).
pub fn find_hunks(lines: &Vec<DiffLine>) -> (hunks: Vec<usize>)
    ensures
        forall|k: int| 0 <= k < hunks@.len() ==> is_hunk_start(rows_of(lines@), #[trigger] hunks@[k] as int),
        forall|k: int, m: int| 0 <= k < m < hunks@.len() ==> hunks@[k] < hunks@[m],
        forall|i: int| is_hunk_start(rows_of(lines@), i) ==> hunks@.contains(i as usize),
{
    let ghost rows = rows_of(lines@);
    let mut hunks: Vec<usize> = Vec::new();
    let mut in_change = false;
    let mut i: usize = 0;
    while i < lines.len()
        invariant
            i <= lines.len(),
            rows == rows_of(lines@),
            i > 0 ==> in_change == is_change_row(rows[i - 1]),
            i == 0 ==> !in_change,
            forall|k: int| 0 <= k < hunks@.len() ==> is_hunk_start(rows, #[trigger] hunks@[k] as int),
            forall|k: int| 0 <= k < hunks@.len() ==> #[trigger] hunks@[k] < i,
            forall|k: int, m: int| 0 <= k < m < hunks@.len() ==> hunks@[k] < hunks@[m],
            forall|j: int| 0 <= j < i && is_hunk_start(rows, j) ==> hunks@.contains(j as usize),
        decreases lines.len() - i,
    {
        let is_change = line_is_change(&lines[i]);
        if is_change && !in_change {
            let ghost old_h = hunks@;
            hunks.push(i);
            in_change = true;
            proof {
                assert(hunks@[hunks@.len() - 1] == i);
                assert forall|j: int| 0 <= j < i + 1 && is_hunk_start(rows, j) implies hunks@.contains(j as usize) by {
                    if j < i {
                        assert(old_h.contains(j as usize));
                        let w = choose|w: int| 0 <= w < old_h.len() && old_h[w] == j as usize;
                        assert(hunks@[w] == j as usize);
                    } else {
                        assert(hunks@[hunks@.len() - 1] == j as usize);
                    }
                }
            }
        } else if !is_change {
            in_change = false;
        }
        i += 1;
    }
    hunks
}

/// Number of unchanged lines kept around each change in the collapsed view.
pub const CONTEXT_LINES: usize = 3;

/// A display line in collapsed or full view.
#[derive(PartialEq, Eq, Structural, Clone, Copy, Debug)]
pub enum DisplayLine {
    /// A real diff line, with its index into the original diff_lines vec.
    Real(usize),
    /// A separator representing hidden equal lines; stores the count hidden.
    Separator(usize),
}

/// A row whose two sides differ.
pub open spec fn differs(r: Row) -> bool {
    r.left != r.right
}

/// Row `i` lies within `CONTEXT_LINES` of a row whose sides differ.
pub open spec fn near_change(rows: Seq<Row>, i: int) -> bool {
    exists|j: int|
        0 <= j < rows.len() && #[trigger] differs(rows[j]) && j - 3 <= i && i <= j + 3
}

/// The end of the run of hidden rows that starts at `i`.
pub open spec fn hidden_end(rows: Seq<Row>, i: int) -> int
    decreases rows.len() - i,
{
    if i >= rows.len() || i < 0 || near_change(rows, i) {
        i
    } else {
        hidden_end(rows, i + 1)
    }
}

/// The collapsed view of the rows from `i` on: each row near a change is
/// shown, each maximal run of other rows becomes one separator holding its
/// length.
pub open spec fn collapsed_from(rows: Seq<Row>, i: int) -> Seq<DisplayLine>
    decreases rows.len() - i,
{
    if i >= rows.len() || i < 0 {
        seq![]
    } else if near_change(rows, i) {
        seq![DisplayLine::Real(i as usize)] + collapsed_from(rows, i + 1)
    } else {
        let e = hidden_end(rows, i);
        if i < e <= rows.len() {
            seq![DisplayLine::Separator((e - i) as usize)] + collapsed_from(rows, e)
        } else {
            seq![]
        }
    }
}

/// Every row that the collapsed view shows is a row of the diff, from `i` on.
pub proof fn lemma_collapsed_real_in_range(rows: Seq<Row>, i: int)
    requires
        0 <= i,
        rows.len() <= usize::MAX,
    ensures
        forall|k: int|
            0 <= k < collapsed_from(rows, i).len() ==> (#[trigger] collapsed_from(rows, i)[k] matches DisplayLine::Real(j)
                ==> i <= j < rows.len()),
    decreases rows.len() - i,
{
    if i >= rows.len() || i < 0 {
    } else if near_change(rows, i) {
        lemma_collapsed_real_in_range(rows, i + 1);
        let rest = collapsed_from(rows, i + 1);
        assert forall|k: int|
            0 <= k < collapsed_from(rows, i).len() implies (#[trigger] collapsed_from(rows, i)[k] matches DisplayLine::Real(
            j,
        ) ==> i <= j < rows.len()) by {
            if k > 0 {
                assert(collapsed_from(rows, i)[k] == rest[k - 1]);
            }
        }
    } else {
        lemma_hidden_end(rows, i);
        let e = hidden_end(rows, i);
        if i < e <= rows.len() {
            lemma_collapsed_real_in_range(rows, e);
            let rest = collapsed_from(rows, e);
            assert forall|k: int|
                0 <= k < collapsed_from(rows, i).len() implies (#[trigger] collapsed_from(rows, i)[k] matches DisplayLine::Real(
                j,
            ) ==> i <= j < rows.len()) by {
                if k > 0 {
                    assert(collapsed_from(rows, i)[k] == rest[k - 1]);
                }
            }
        }
    }
}

/// The number of rows that a view stands for: one for each row shown, and
/// the count of each separator.
pub open spec fn rows_covered(view: Seq<DisplayLine>) -> int
    decreases view.len(),
{
    if view.len() == 0 {
        0
    } else {
        (match view[0] {
            DisplayLine::Real(_) => 1,
            DisplayLine::Separator(c) => c as int,
        }) + rows_covered(view.drop_first())
    }
}

/// The collapsed view stands for every row of the diff exactly once: the
/// rows it shows and the rows its separators hide add up to all of them.
pub proof fn lemma_collapsed_covers_all(rows: Seq<Row>, i: int)
    requires
        0 <= i <= rows.len(),
        rows.len() <= usize::MAX,
    ensures
        rows_covered(collapsed_from(rows, i)) == rows.len() - i,
    decreases rows.len() - i,
{
    let v = collapsed_from(rows, i);
    if i < rows.len() {
        if near_change(rows, i) {
            lemma_collapsed_covers_all(rows, i + 1);
            assert(v.drop_first() =~= collapsed_from(rows, i + 1));
        } else {
            lemma_hidden_end(rows, i);
            let e = hidden_end(rows, i);
            lemma_collapsed_covers_all(rows, e);
            assert(v.drop_first() =~= collapsed_from(rows, e));
        }
    }
}

proof fn lemma_hidden_end(rows: Seq<Row>, i: int)
    requires
        0 <= i <= rows.len(),
    ensures
        i <= hidden_end(rows, i) <= rows.len(),
        !near_change(rows, i) && i < rows.len() ==> hidden_end(rows, i) > i,
        forall|k: int| i <= k < hidden_end(rows, i) ==> !near_change(rows, k),
        hidden_end(rows, i) < rows.len() ==> near_change(rows, hidden_end(rows, i)),
    decreases rows.len() - i,
{
    if i < rows.len() && !near_change(rows, i) {
        lemma_hidden_end(rows, i + 1);
    }
}

fn line_differs(l: &DiffLine) -> (r: bool)
    ensures
        r == differs(l.row()),
{
    !same_opt(&l.left, &l.right)
}

/// Build a collapsed view showing only change regions + context lines around them.
pub fn build_collapsed_view(diff_lines: &Vec<DiffLine>) -> (view: Vec<DisplayLine>)
    ensures
        view@ == collapsed_from(rows_of(diff_lines@), 0),
{
    let ghost rows = rows_of(diff_lines@);
    let total = diff_lines.len();
    if total == 0 {
        return Vec::new();
    }
    let mut visible: Vec<bool> = Vec::new();
    let mut k: usize = 0;
    while k < total
        invariant
            k <= total,
            visible@.len() == k,
            forall|m: int| 0 <= m < k ==> !#[trigger] visible@[m],
        decreases total - k,
    {
        visible.push(false);
        k += 1;
    }
    let mut i: usize = 0;
    while i < total
        invariant
            i <= total == diff_lines@.len(),
            rows == rows_of(diff_lines@),
            visible@.len() == total,
            forall|m: int|
                0 <= m < total ==> (#[trigger] visible@[m] <==> exists|j: int|
                    0 <= j < i && #[trigger] differs(rows[j]) && j - 3 <= m && m <= j + 3),
        decreases total - i,
    {
        if line_differs(&diff_lines[i]) {
            let start = if i >= CONTEXT_LINES {
                i - CONTEXT_LINES
            } else {
                0
            };
            let end = if total - i > CONTEXT_LINES {
                i + CONTEXT_LINES + 1
            } else {
                total
            };
            let ghost before = visible@;
            let mut m: usize = start;
            while m < end
                invariant
                    start <= m <= end <= total,
                    visible@.len() == total,
                    forall|q: int| 0 <= q < total ==> (#[trigger] visible@[q] <==> (before[q] || (start <= q < m))),
                decreases end - m,
            {
                visible.set(m, true);
                m += 1;
            }
            proof {
                assert forall|q: int| 0 <= q < total implies (#[trigger] visible@[q] <==> exists|j: int|
                    0 <= j < i + 1 && #[trigger] differs(rows[j]) && j - 3 <= q && q <= j + 3) by {
                    if start <= q < end {
                        assert(differs(rows[i as int]));
                    }
                    if exists|j: int| 0 <= j < i + 1 && #[trigger] differs(rows[j]) && j - 3 <= q && q <= j + 3 {
                        let j = choose|j: int| 0 <= j < i + 1 && #[trigger] differs(rows[j]) && j - 3 <= q && q <= j + 3;
                        if j < i {
                            assert(before[q]);
                        }
                    }
                }
            }
        }
        i += 1;
    }
    proof {
        assert forall|m: int| 0 <= m < total implies (#[trigger] visible@[m] <==> near_change(rows, m)) by {
            if visible@[m] {
                let j = choose|j: int| 0 <= j < total && #[trigger] differs(rows[j]) && j - 3 <= m && m <= j + 3;
                assert(near_change(rows, m));
            }
        }
    }
    let mut result: Vec<DisplayLine> = Vec::new();
    let mut i: usize = 0;
    while i < total
        invariant
            i <= total == rows.len(),
            visible@.len() == total,
            forall|m: int| 0 <= m < total ==> (#[trigger] visible@[m] <==> near_change(rows, m)),
            collapsed_from(rows, 0) == result@ + collapsed_from(rows, i as int),
        decreases total - i,
    {
        if visible[i] {
            result.push(DisplayLine::Real(i));
            proof {
                assert(collapsed_from(rows, i as int) == seq![DisplayLine::Real(i)] + collapsed_from(rows, i + 1));
                assert(collapsed_from(rows, 0) =~= result@ + collapsed_from(rows, i + 1));
            }
            i += 1;
        } else {
            let start = i;
            proof {
                lemma_hidden_end(rows, start as int);
            }
            while i < total && !visible[i]
                invariant
                    start <= i <= total,
                    total == rows.len(),
                    visible@.len() == total,
                    forall|m: int| 0 <= m < total ==> (#[trigger] visible@[m] <==> near_change(rows, m)),
                    hidden_end(rows, start as int) == hidden_end(rows, i as int),
                decreases total - i,
            {
                proof {
                    assert(!near_change(rows, i as int));
                    assert(hidden_end(rows, i as int) == hidden_end(rows, i + 1));
                }
                i += 1;
            }
            result.push(DisplayLine::Separator(i - start));
            proof {
                assert(hidden_end(rows, i as int) == i);
                assert(collapsed_from(rows, start as int) == seq![DisplayLine::Separator((i - start) as usize)]
                    + collapsed_from(rows, i as int));
                assert(collapsed_from(rows, 0) =~= result@ + collapsed_from(rows, i as int));
            }
        }
    }
    proof {
        assert(collapsed_from(rows, total as int) == Seq::<DisplayLine>::empty());
        assert(result@ =~= collapsed_from(rows, 0));
    }
    result
}

/// No line of the diff shows a difference.
pub fn no_differences(lines: &Vec<DiffLine>) -> (r: bool)
    ensures
        r == forall|i: int| 0 <= i < lines@.len() ==> !differs(#[trigger] rows_of(lines@)[i]),
{
    let mut i: usize = 0;
    while i < lines.len()
        invariant
            i <= lines.len(),
            forall|k: int| 0 <= k < i ==> !differs(#[trigger] rows_of(lines@)[k]),
        decreases lines.len() - i,
    {
        proof {
            assert(rows_of(lines@)[i as int] == lines@[i as int].row());
        }
        if line_differs(&lines[i]) {
            return false;
        }
        i += 1;
    }
    true
}

// ---------------------------------------------------------------------------
// What the diff command does
// ---------------------------------------------------------------------------

/// What `run` decided to do with the two configurations.
pub enum DiffAction {
    /// Write both texts to temporary `.nix` files and run the external
    /// command on them.
    Exec { command: String, old_nix: String, new_nix: String },
    /// Show the side-by-side viewer.
    Viewer { old_nix: String, new_nix: String },
    /// Print the unified diff and exit with `exit_code` (1 when there are
    /// differences, the `diff` convention).
    Print { text: String, exit_code: i32 },
}

/// The header names of the unified diff.
pub open spec fn old_header() -> Seq<char> {
    "a/config.nix"@
}

pub open spec fn new_header() -> Seq<char> {
    "b/config.nix"@
}

/// Diff two configurations: both are written as flat Nix text, then compared
/// by an external command when one is given, in the viewer on a terminal, and
/// as a printed unified diff otherwise.
pub fn run(old_json: &JsonValue, new_json: &JsonValue, exec_cmd: Option<&str>, is_tty: bool) -> (action: DiffAction)
    requires
        json_depth(old_json.model()) < usize::MAX,
        json_depth(new_json.model()) < usize::MAX,
    ensures
        match exec_cmd {
            Some(cmd) => action matches DiffAction::Exec { command, old_nix, new_nix } && command@ == cmd@
                && old_nix@ == nix_document(old_json.model(), true) && new_nix@ == nix_document(
                new_json.model(),
                true,
            ),
            None => if is_tty {
                action matches DiffAction::Viewer { old_nix, new_nix } && old_nix@ == nix_document(
                    old_json.model(),
                    true,
                ) && new_nix@ == nix_document(new_json.model(), true)
            } else {
                action matches DiffAction::Print { text, exit_code } && text@ == unified_diff_of(
                    nix_document(old_json.model(), true),
                    nix_document(new_json.model(), true),
                    old_header(),
                    new_header(),
                ) && exit_code == (if text@.len() == 0 {
                    0i32
                } else {
                    1i32
                })
            },
        },
        exec_cmd is None && !is_tty && nix_document(old_json.model(), true) == nix_document(new_json.model(), true)
            ==> (action matches DiffAction::Print { text, exit_code } && text@.len() == 0 && exit_code == 0),
{
    let old_nix = convert(old_json, true);
    let new_nix = convert(new_json, true);
    match exec_cmd {
        Some(cmd) => {
            let command = String::from_str(cmd);
            DiffAction::Exec { command, old_nix, new_nix }
        },
        None => {
            if is_tty {
                DiffAction::Viewer { old_nix, new_nix }
            } else {
                let text = unified_diff(old_nix.as_str(), new_nix.as_str(), "a/config.nix", "b/config.nix");
                let exit_code = if text.as_str().unicode_len() == 0 {
                    0i32
                } else {
                    1i32
                };
                DiffAction::Print { text, exit_code }
            }
        },
    }
}

/// The shell command line that runs an external diff on two files.
pub fn exec_command_line(cmd: &str, old_path: &str, new_path: &str) -> (line: String)
    ensures
        line@ == cmd@ + seq![' '] + old_path@ + seq![' '] + new_path@,
{
    let mut line = String::from_str(cmd);
    crate::text::push_char(&mut line, ' ');
    line.append(old_path);
    crate::text::push_char(&mut line, ' ');
    line.append(new_path);
    line
}

// ---------------------------------------------------------------------------
// The side-by-side viewer's keys
// ---------------------------------------------------------------------------

/// Where the side-by-side viewer stands.
#[derive(PartialEq, Eq, Structural, Clone, Copy, Debug)]
pub struct DiffViewState {
    pub scroll: usize,
    pub collapsed: bool,
}

/// Number of lines in the current view.
pub open spec fn view_total(st: DiffViewState, rows: Seq<Row>, view: Seq<DisplayLine>) -> int {
    if st.collapsed {
        view.len() as int
    } else {
        rows.len() as int
    }
}

/// Position `k` of the collapsed view shows a row whose sides differ.
pub open spec fn change_at(view: Seq<DisplayLine>, rows: Seq<Row>, k: int) -> bool {
    &&& 0 <= k < view.len()
    &&& match view[k] {
        DisplayLine::Real(idx) => idx < rows.len() && differs(rows[idx as int]),
        DisplayLine::Separator(_) => false,
    }
}

/// The first position of the run of changed positions that ends at `k`.
pub open spec fn run_start(view: Seq<DisplayLine>, rows: Seq<Row>, k: int) -> int
    decreases k,
{
    if k > 0 && change_at(view, rows, k - 1) {
        run_start(view, rows, k - 1)
    } else {
        k
    }
}

/// The first changed position at or after `from`.
pub open spec fn first_change_from(view: Seq<DisplayLine>, rows: Seq<Row>, from: int) -> Option<int>
    decreases view.len() - from,
{
    if from < 0 || from >= view.len() {
        None
    } else if change_at(view, rows, from) {
        Some(from)
    } else {
        first_change_from(view, rows, from + 1)
    }
}

/// The last changed position before `to`.
pub open spec fn last_change_before(view: Seq<DisplayLine>, rows: Seq<Row>, to: int) -> Option<int>
    decreases to,
{
    if to <= 0 {
        None
    } else if change_at(view, rows, to - 1) {
        Some(to - 1)
    } else {
        last_change_before(view, rows, to - 1)
    }
}

/// The first hunk start in `hunks` (in their order) after `s`, looking from
/// index `k` on.
pub open spec fn first_hunk_after(hunks: Seq<usize>, s: int, k: int) -> Option<usize>
    decreases hunks.len() - k,
{
    if k < 0 || k >= hunks.len() {
        None
    } else if hunks[k] > s {
        Some(hunks[k])
    } else {
        first_hunk_after(hunks, s, k + 1)
    }
}

/// The last hunk start in `hunks[..k]` (in their order) before `s`.
pub open spec fn last_hunk_before(hunks: Seq<usize>, s: int, k: int) -> Option<usize>
    decreases k,
{
    if k <= 0 || k > hunks.len() {
        None
    } else if hunks[k - 1] < s {
        Some(hunks[k - 1])
    } else {
        last_hunk_before(hunks, s, k - 1)
    }
}

/// The first position of the collapsed view, from `k` on, that shows an
/// original line at or after `line`; zero when there is none.
pub open spec fn first_real_from(view: Seq<DisplayLine>, line: int, k: int) -> int
    decreases view.len() - k,
{
    if k < 0 || k >= view.len() {
        0
    } else if view[k] matches DisplayLine::Real(idx) && idx >= line {
        k
    } else {
        first_real_from(view, line, k + 1)
    }
}

/// The viewer after a key that does not quit.
pub open spec fn diff_view_step(
    st: DiffViewState,
    key: KeyPress,
    visible: int,
    rows: Seq<Row>,
    hunks: Seq<usize>,
    view: Seq<DisplayLine>,
) -> DiffViewState {
    let total = view_total(st, rows, view);
    let s = st.scroll as int;
    let c = key.code;
    if c == Key::Char('j') || c == Key::Down {
        DiffViewState { scroll: if s + 1 < total { (s + 1) as usize } else { st.scroll }, ..st }
    } else if c == Key::Char('k') || c == Key::Up {
        DiffViewState { scroll: sat_sub(s, 1) as usize, ..st }
    } else if c == Key::PageDown {
        let a = sat_sub(total, 1);
        let b = s + visible;
        DiffViewState { scroll: (if a <= b { a } else { b }) as usize, ..st }
    } else if c == Key::PageUp {
        DiffViewState { scroll: sat_sub(s, visible) as usize, ..st }
    } else if c == Key::Char('g') || c == Key::Home {
        DiffViewState { scroll: 0, ..st }
    } else if c == Key::Char('G') || c == Key::End {
        DiffViewState { scroll: sat_sub(total, visible) as usize, ..st }
    } else if c == Key::Char('e') {
        if !st.collapsed {
            DiffViewState { scroll: first_real_from(view, s, 0) as usize, collapsed: true }
        } else {
            DiffViewState {
                scroll: if s < view.len() {
                    match view[s] {
                        DisplayLine::Real(idx) => idx,
                        DisplayLine::Separator(_) => 0,
                    }
                } else {
                    0
                },
                collapsed: false,
            }
        }
    } else if c == Key::Char('n') {
        if st.collapsed {
            match first_change_from(view, rows, s + 1) {
                Some(abs) => {
                    let h = run_start(view, rows, abs);
                    DiffViewState { scroll: (if h > s { h } else { abs }) as usize, ..st }
                },
                None => st,
            }
        } else {
            match first_hunk_after(hunks, s, 0) {
                Some(h) => DiffViewState { scroll: h, ..st },
                None => st,
            }
        }
    } else if c == Key::Char('N') {
        if st.collapsed {
            if s > 0 {
                match last_change_before(view, rows, s) {
                    Some(p) => DiffViewState { scroll: run_start(view, rows, p) as usize, ..st },
                    None => st,
                }
            } else {
                st
            }
        } else {
            match last_hunk_before(hunks, s, hunks.len() as int) {
                Some(h) => DiffViewState { scroll: h, ..st },
                None => st,
            }
        }
    } else {
        st
    }
}

proof fn lemma_first_real_bound(view: Seq<DisplayLine>, line: int, k: int)
    requires
        0 <= k,
    ensures
        first_real_from(view, line, k) == 0 || k <= first_real_from(view, line, k) < view.len(),
    decreases view.len() - k,
{
    if k < view.len() && !(view[k] matches DisplayLine::Real(idx) && idx >= line) {
        lemma_first_real_bound(view, line, k + 1);
    }
}

proof fn lemma_first_change_bound(view: Seq<DisplayLine>, rows: Seq<Row>, from: int)
    ensures
        first_change_from(view, rows, from) matches Some(a) ==> from <= a < view.len(),
    decreases view.len() - from,
{
    if 0 <= from < view.len() && !change_at(view, rows, from) {
        lemma_first_change_bound(view, rows, from + 1);
    }
}

proof fn lemma_last_change_bound(view: Seq<DisplayLine>, rows: Seq<Row>, to: int)
    ensures
        last_change_before(view, rows, to) matches Some(p) ==> 0 <= p < to,
    decreases to,
{
    if to > 0 && !change_at(view, rows, to - 1) {
        lemma_last_change_bound(view, rows, to - 1);
    }
}

proof fn lemma_run_start_bound(view: Seq<DisplayLine>, rows: Seq<Row>, k: int)
    requires
        0 <= k,
    ensures
        0 <= run_start(view, rows, k) <= k,
    decreases k,
{
    if k > 0 && change_at(view, rows, k - 1) {
        lemma_run_start_bound(view, rows, k - 1);
    }
}

proof fn lemma_first_hunk_in(hunks: Seq<usize>, s: int, k: int)
    ensures
        first_hunk_after(hunks, s, k) matches Some(h) ==> hunks.contains(h),
    decreases hunks.len() - k,
{
    if 0 <= k < hunks.len() {
        if hunks[k] > s {
            assert(hunks[k] == hunks[k]);
        } else {
            lemma_first_hunk_in(hunks, s, k + 1);
        }
    }
}

proof fn lemma_last_hunk_in(hunks: Seq<usize>, s: int, k: int)
    ensures
        last_hunk_before(hunks, s, k) matches Some(h) ==> hunks.contains(h),
    decreases k,
{
    if 0 < k <= hunks.len() {
        if hunks[k - 1] < s {
            assert(hunks[k - 1] == hunks[k - 1]);
        } else {
            lemma_last_hunk_in(hunks, s, k - 1);
        }
    }
}

/// A key keeps the viewer's scroll offset within the lines it shows, for a
/// view that is the collapsed view of the rows and hunks that start hunks
/// of them: an offset at most the number of lines shown stays so; and where
/// the diff has a row and at least one line is visible, an offset below that
/// number stays below it.
pub proof fn lemma_scroll_stays_in_view(
    st: DiffViewState,
    key: KeyPress,
    visible: int,
    rows: Seq<Row>,
    hunks: Seq<usize>,
    view: Seq<DisplayLine>,
)
    requires
        rows.len() <= usize::MAX,
        view == collapsed_from(rows, 0),
        forall|k: int| 0 <= k < hunks.len() ==> is_hunk_start(rows, #[trigger] hunks[k] as int),
        0 <= visible,
        st.scroll <= view_total(st, rows, view),
    ensures
        diff_view_step(st, key, visible, rows, hunks, view).scroll <= view_total(
            diff_view_step(st, key, visible, rows, hunks, view),
            rows,
            view,
        ),
        rows.len() > 0 && visible >= 1 && st.scroll < view_total(st, rows, view) ==> diff_view_step(
            st,
            key,
            visible,
            rows,
            hunks,
            view,
        ).scroll < view_total(diff_view_step(st, key, visible, rows, hunks, view), rows, view),
{
    let s = st.scroll as int;
    lemma_collapsed_real_in_range(rows, 0);
    lemma_collapsed_covers_all(rows, 0);
    if rows.len() > 0 {
        assert(view.len() > 0);
    }
    lemma_first_real_bound(view, s, 0);
    lemma_first_change_bound(view, rows, s + 1);
    match first_change_from(view, rows, s + 1) {
        Some(a) => {
            lemma_run_start_bound(view, rows, a);
        },
        None => {},
    }
    lemma_last_change_bound(view, rows, s);
    match last_change_before(view, rows, s) {
        Some(p) => {
            lemma_run_start_bound(view, rows, p);
        },
        None => {},
    }
    lemma_first_hunk_in(hunks, s, 0);
    lemma_last_hunk_in(hunks, s, hunks.len() as int);
    if s < view.len() {
        match view[s] {
            DisplayLine::Real(idx) => {
                assert(idx < rows.len());
            },
            DisplayLine::Separator(_) => {},
        }
    }
}

fn change_at_exec(view: &Vec<DisplayLine>, lines: &Vec<DiffLine>, k: usize) -> (r: bool)
    requires
        k < view@.len(),
    ensures
        r == change_at(view@, rows_of(lines@), k as int),
{
    proof {
        assert(rows_of(lines@).len() == lines@.len());
    }
    match view[k] {
        DisplayLine::Real(idx) => {
            if idx < lines.len() {
                proof {
                    assert(rows_of(lines@)[idx as int] == lines@[idx as int].row());
                }
                line_differs(&lines[idx])
            } else {
                false
            }
        },
        DisplayLine::Separator(_) => false,
    }
}

fn walk_to_run_start(view: &Vec<DisplayLine>, lines: &Vec<DiffLine>, k: usize) -> (h: usize)
    requires
        k <= view@.len(),
    ensures
        h as int == run_start(view@, rows_of(lines@), k as int),
{
    let mut h = k;
    let mut stop = false;
    while !stop && h > 0
        invariant
            h <= k <= view@.len(),
            run_start(view@, rows_of(lines@), k as int) == run_start(view@, rows_of(lines@), h as int),
            stop ==> h > 0 && !change_at(view@, rows_of(lines@), h - 1),
        decreases h, (if stop { 0nat } else { 1nat }),
    {
        if change_at_exec(view, lines, h - 1) {
            h -= 1;
        } else {
            stop = true;
        }
    }
    h
}

/// Apply a key to the side-by-side viewer. Returns `true` when the key quits.
pub fn diff_view_key(
    state: &mut DiffViewState,
    key: &KeyPress,
    visible: usize,
    lines: &Vec<DiffLine>,
    hunks: &Vec<usize>,
    view: &Vec<DisplayLine>,
) -> (quit: bool)
    requires
        old(state).scroll + visible <= usize::MAX,
        key.code == Key::Char('n') && old(state).collapsed ==> old(state).scroll < usize::MAX,
        key.code == Key::Char('N') && old(state).collapsed ==> old(state).scroll <= view@.len(),
    ensures
        quit == quits(*key),
        quit ==> *final(state) == *old(state),
        !quit ==> *final(state) == diff_view_step(*old(state), *key, visible as int, rows_of(lines@), hunks@, view@),
{
    if is_quit(key) {
        return true;
    }
    let ghost rows = rows_of(lines@);
    let total = if state.collapsed {
        view.len()
    } else {
        lines.len()
    };
    let scroll = state.scroll;
    if is_char(key, 'j') || key.code == Key::Down {
        if total > 0 && scroll < total - 1 {
            state.scroll = scroll + 1;
        }
    } else if is_char(key, 'k') || key.code == Key::Up {
        state.scroll = if scroll >= 1 {
            scroll - 1
        } else {
            0
        };
    } else if key.code == Key::PageDown {
        let a = if total >= 1 {
            total - 1
        } else {
            0
        };
        let b = scroll + visible;
        state.scroll = if a <= b {
            a
        } else {
            b
        };
    } else if key.code == Key::PageUp {
        state.scroll = if scroll >= visible {
            scroll - visible
        } else {
            0
        };
    } else if is_char(key, 'g') || key.code == Key::Home {
        state.scroll = 0;
    } else if is_char(key, 'G') || key.code == Key::End {
        state.scroll = if total >= visible {
            total - visible
        } else {
            0
        };
    } else if is_char(key, 'e') {
        if !state.collapsed {
            let mut k: usize = 0;
            let mut found = false;
            while !found && k < view.len()
                invariant
                    k <= view@.len(),
                    first_real_from(view@, scroll as int, 0) == first_real_from(view@, scroll as int, k as int),
                    found ==> k < view@.len() && first_real_from(view@, scroll as int, k as int) == k,
                decreases view.len() - k, (if found { 0nat } else { 1nat }),
            {
                match view[k] {
                    DisplayLine::Real(idx) => {
                        if idx >= scroll {
                            found = true;
                        } else {
                            k += 1;
                        }
                    },
                    _ => {
                        k += 1;
                    },
                }
            }
            state.scroll = if found {
                k
            } else {
                0
            };
            state.collapsed = true;
        } else {
            state.scroll = if scroll < view.len() {
                match view[scroll] {
                    DisplayLine::Real(idx) => idx,
                    _ => 0,
                }
            } else {
                0
            };
            state.collapsed = false;
        }
    } else if is_char(key, 'n') {
        if state.collapsed {
            let mut k: usize = scroll + 1;
            let mut found = false;
            while !found && k < view.len()
                invariant
                    scroll + 1 <= k,
                    first_change_from(view@, rows, scroll + 1) == first_change_from(view@, rows, k as int),
                    rows == rows_of(lines@),
                    found ==> k < view@.len() && change_at(view@, rows, k as int),
                decreases view.len() - k, (if found { 0nat } else { 1nat }),
            {
                if change_at_exec(view, lines, k) {
                    found = true;
                } else {
                    k += 1;
                }
            }
            if found {
                let abs_pos = k;
                let hunk_start = walk_to_run_start(view, lines, abs_pos);
                state.scroll = if hunk_start > scroll {
                    hunk_start
                } else {
                    abs_pos
                };
            }
        } else {
            let mut k: usize = 0;
            let mut found = false;
            while !found && k < hunks.len()
                invariant
                    k <= hunks@.len(),
                    first_hunk_after(hunks@, scroll as int, 0) == first_hunk_after(hunks@, scroll as int, k as int),
                    found ==> k < hunks@.len() && hunks@[k as int] > scroll,
                decreases hunks.len() - k, (if found { 0nat } else { 1nat }),
            {
                if hunks[k] > scroll {
                    found = true;
                } else {
                    k += 1;
                }
            }
            if found {
                state.scroll = hunks[k];
            }
        }
    } else if is_char(key, 'N') {
        if state.collapsed {
            if scroll > 0 {
                let mut k: usize = scroll;
                let mut found = false;
                while !found && k > 0
                    invariant
                        k <= scroll <= view@.len(),
                        last_change_before(view@, rows, scroll as int) == last_change_before(view@, rows, k as int),
                        rows == rows_of(lines@),
                        found ==> k > 0 && change_at(view@, rows, k - 1),
                    decreases k, (if found { 0nat } else { 1nat }),
                {
                    if change_at_exec(view, lines, k - 1) {
                        found = true;
                    } else {
                        k -= 1;
                    }
                }
                if found {
                    let hunk_start = walk_to_run_start(view, lines, k - 1);
                    state.scroll = hunk_start;
                }
            }
        } else {
            let mut k: usize = hunks.len();
            let mut found = false;
            while !found && k > 0
                invariant
                    k <= hunks@.len(),
                    last_hunk_before(hunks@, scroll as int, hunks@.len() as int) == last_hunk_before(hunks@, scroll as int, k as int),
                    found ==> k > 0 && hunks@[k - 1] < scroll,
                decreases k, (if found { 0nat } else { 1nat }),
            {
                if hunks[k - 1] < scroll {
                    found = true;
                } else {
                    k -= 1;
                }
            }
            if found {
                state.scroll = hunks[k - 1];
            }
        }
    }
    false
}

} // verus!
