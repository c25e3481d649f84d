use vstd::prelude::*;

use crate::json::{entries_model, items_model, lemma_array_model, lemma_object_model, Json, JsonValue};
use crate::text::{chars_of, contains_char, lines, lines_of, push_char, push_string, string_of};

verus! {

// ---------------------------------------------------------------------------
// Decimal numbers
// ---------------------------------------------------------------------------

/// The digit character for `d < 10`.
pub open spec fn digit(d: nat) -> char {
    if d == 0 {
        '0'
    } else if d == 1 {
        '1'
    } else if d == 2 {
        '2'
    } else if d == 3 {
        '3'
    } else if d == 4 {
        '4'
    } else if d == 5 {
        '5'
    } else if d == 6 {
        '6'
    } else if d == 7 {
        '7'
    } else if d == 8 {
        '8'
    } else {
        '9'
    }
}

/// The decimal notation of `n`, without leading zeros.
pub open spec fn decimal(n: nat) -> Seq<char>
    decreases n,
{
    if n < 10 {
        seq![digit(n)]
    } else {
        decimal(n / 10).push(digit(n % 10))
    }
}

fn digit_char(d: usize) -> (c: char)
    requires
        d < 10,
    ensures
        c == digit(d as nat),
{
    if d == 0 {
        '0'
    } else if d == 1 {
        '1'
    } else if d == 2 {
        '2'
    } else if d == 3 {
        '3'
    } else if d == 4 {
        '4'
    } else if d == 5 {
        '5'
    } else if d == 6 {
        '6'
    } else if d == 7 {
        '7'
    } else if d == 8 {
        '8'
    } else {
        '9'
    }
}

/// Appends the decimal notation of `n` to `buf`.
pub fn push_decimal(buf: &mut String, n: usize)
    ensures
        final(buf)@ == old(buf)@ + decimal(n as nat),
    decreases n,
{
    if n >= 10 {
        push_decimal(buf, n / 10);
    }
    push_char(buf, digit_char(n % 10));
    proof {
        assert(final(buf)@ =~= old(buf)@ + decimal(n as nat));
    }
}

// ---------------------------------------------------------------------------
// Lengths in bytes
// ---------------------------------------------------------------------------

/// The number of bytes of `c` in UTF-8.
pub open spec fn char_width(c: char) -> nat {
    if (c as u32) < 0x80 {
        1
    } else if (c as u32) < 0x800 {
        2
    } else if (c as u32) < 0x10000 {
        3
    } else {
        4
    }
}

/// The number of bytes of `s` in UTF-8 (what `str::len` returns).
pub open spec fn utf8_len(s: Seq<char>) -> nat
    decreases s.len(),
{
    if s.len() == 0 {
        0
    } else {
        utf8_len(s.drop_last()) + char_width(s.last())
    }
}

fn width_of(c: char) -> (w: usize)
    ensures
        w == char_width(c),
{
    let u = c as u32;
    if u < 0x80 {
        1
    } else if u < 0x800 {
        2
    } else if u < 0x10000 {
        3
    } else {
        4
    }
}

pub proof fn lemma_utf8_len_take(s: Seq<char>, i: int)
    requires
        0 <= i < s.len(),
    ensures
        utf8_len(s.take(i + 1)) == utf8_len(s.take(i)) + char_width(s[i]),
{
    assert(s.take(i + 1).drop_last() =~= s.take(i));
}

/// The length of `s` in bytes. Calls `str::len`, which the standard library
/// documents as the length in bytes; `utf8_len` states the number of bytes
/// that UTF-8 takes for each character.
#[verifier::external_body]
pub(crate) fn byte_len(s: &str) -> (n: usize)
    ensures
        n == utf8_len(s@),
{
    s.len()
}

/// Whether `s` is longer than `limit` bytes.
pub fn longer_than(s: &Vec<char>, limit: usize) -> (r: bool)
    requires
        limit < usize::MAX - 4,
    ensures
        r == (utf8_len(s@) > limit),
{
    let mut acc: usize = 0;
    let mut i: usize = 0;
    while i < s.len()
        invariant
            i <= s.len(),
            limit < usize::MAX - 4,
            acc == utf8_len(s@.take(i as int)),
            acc <= limit,
        decreases s.len() - i,
    {
        proof {
            lemma_utf8_len_take(s@, i as int);
        }
        acc = acc + width_of(s[i]);
        i += 1;
        if acc > limit {
            proof {
                lemma_utf8_len_monotone(s@, i as int, s.len() as int);
            }
            return true;
        }
    }
    proof {
        assert(s@.take(s.len() as int) =~= s@);
    }
    false
}

pub proof fn lemma_utf8_len_monotone(s: Seq<char>, i: int, j: int)
    requires
        0 <= i <= j <= s.len(),
    ensures
        utf8_len(s.take(i)) <= utf8_len(s.take(j)),
        j == s.len() ==> s.take(j) == s,
    decreases j - i,
{
    if i < j {
        lemma_utf8_len_take(s, j - 1);
        lemma_utf8_len_monotone(s, i, j - 1);
    }
    if j == s.len() {
        assert(s.take(j) =~= s);
    }
}

/// How many characters, from the front of `s` and counting from `k`, fit
/// in `n` bytes: the first `k` are taken as given, and each further
/// character is taken while the prefix stays within `n` bytes.
pub open spec fn fitting_from(s: Seq<char>, n: int, k: nat) -> nat
    decreases s.len() - k,
{
    if k >= s.len() || utf8_len(s.take(k + 1 as int)) > n {
        k
    } else {
        fitting_from(s, n, (k + 1) as nat)
    }
}

/// Counting on from `k` never passes the end of `s`.
pub proof fn lemma_fitting_le(s: Seq<char>, n: int, k: nat)
    requires
        k <= s.len(),
    ensures
        k <= fitting_from(s, n, k) <= s.len(),
    decreases s.len() - k,
{
    if k < s.len() && utf8_len(s.take(k + 1 as int)) <= n {
        lemma_fitting_le(s, n, (k + 1) as nat);
    }
}

/// The longest prefix of `s` made of whole characters that fits in `n` bytes.
pub open spec fn byte_prefix(s: Seq<char>, n: int) -> Seq<char> {
    s.take(fitting_from(s, n, 0) as int)
}

/// Whether byte offset `n` falls on a character boundary of `s` (so that
/// slicing `s` there does not panic).
pub open spec fn on_boundary(s: Seq<char>, n: int) -> bool {
    utf8_len(byte_prefix(s, n)) == n
}

/// The characters of `s` up to byte `n`.
pub fn prefix_bytes(s: &Vec<char>, n: usize) -> (out: Vec<char>)
    requires
        n <= usize::MAX - 4,
    ensures
        out@ == byte_prefix(s@, n as int),
{
    let mut out: Vec<char> = Vec::new();
    let mut acc: usize = 0;
    let mut i: usize = 0;
    while i < s.len()
        invariant_except_break
            i <= s.len(),
            n <= usize::MAX - 4,
            out@ == s@.take(i as int),
            acc == utf8_len(s@.take(i as int)),
            acc <= n,
            fitting_from(s@, n as int, 0) == fitting_from(s@, n as int, i as nat),
        ensures
            out@ == s@.take(i as int),
            fitting_from(s@, n as int, 0) == i,
        decreases s.len() - i,
    {
        proof {
            lemma_utf8_len_take(s@, i as int);
        }
        let w = width_of(s[i]);
        if acc + w > n {
            proof {
                assert(fitting_from(s@, n as int, i as nat) == i);
            }
            break;
        }
        out.push(s[i]);
        acc = acc + w;
        i += 1;
        proof {
            assert(out@ =~= s@.take(i as int));
        }
    }
    out
}

// ---------------------------------------------------------------------------
// Short and full renderings of a value
// ---------------------------------------------------------------------------

/// `c` written inside a double-quoted string: backslashes and quotes escaped.
pub open spec fn quote_piece(c: char) -> Seq<char> {
    if c == '\\' {
        "\\\\"@
    } else if c == '"' {
        "\\\""@
    } else {
        seq![c]
    }
}

/// `s` with every backslash and double quote escaped by a backslash.
pub open spec fn quote_escaped(s: Seq<char>) -> Seq<char>
    decreases s.len(),
{
    if s.len() == 0 {
        seq![]
    } else {
        quote_escaped(s.drop_last()) + quote_piece(s.last())
    }
}

/// The one-line summary of a value: scalars as written, long or multi-line
/// strings abbreviated, lists and sets by their size.
pub open spec fn short_text(v: Json) -> Seq<char> {
    match v {
        Json::Null => "null"@,
        Json::Bool(b) => if b {
            "true"@
        } else {
            "false"@
        },
        Json::Number(n) => n,
        Json::Str(s) => if s.contains('\n') {
            "''...''"@
        } else if utf8_len(s) > 40 {
            "\""@ + byte_prefix(s, 37) + "...\""@
        } else {
            "\""@ + quote_escaped(s) + "\""@
        },
        Json::Array(items) => if items.len() == 0 {
            "[]"@
        } else {
            "["@ + decimal(items.len()) + "]"@
        },
        Json::Object(entries) => if entries.len() == 0 {
            "{}"@
        } else {
            "{"@ + decimal(entries.len()) + "}"@
        },
    }
}

/// The short form can be made: a long string is cut at byte 37, which must
/// fall between two characters.
pub open spec fn short_ok(v: Json) -> bool {
    match v {
        Json::Str(s) => s.contains('\n') || utf8_len(s) <= 40 || on_boundary(s, 37),
        _ => true,
    }
}

/// The full form can be made: every element or value shown in it has a short form.
pub open spec fn full_ok(v: Json) -> bool {
    match v {
        Json::Array(items) => forall|i: int| 0 <= i < items.len() ==> short_ok(#[trigger] items[i]),
        Json::Object(entries) => forall|i: int|
            0 <= i < entries.len() ==> short_ok(#[trigger] entries[i].1),
        _ => true,
    }
}

/// Each element of a list, and each value of a set, that has a full form
/// has a short form.
pub proof fn lemma_full_ok_parts(v: Json, i: int)
    ensures
        v matches Json::Array(items) ==> (0 <= i < items.len() && full_ok(v) ==> short_ok(items[i])),
        v matches Json::Object(entries) ==> (0 <= i < entries.len() && full_ok(v) ==> short_ok(entries[i].1)),
{
}

fn push_quote_escaped(buf: &mut String, s: &Vec<char>)
    ensures
        final(buf)@ == old(buf)@ + quote_escaped(s@),
{
    let mut i: usize = 0;
    while i < s.len()
        invariant
            i <= s.len(),
            buf@ == old(buf)@ + quote_escaped(s@.take(i as int)),
        decreases s.len() - i,
    {
        let c = s[i];
        if c == '\\' {
            buf.append("\\\\");
        } else if c == '"' {
            buf.append("\\\"");
        } else {
            push_char(buf, c);
        }
        proof {
            assert(s@.take(i + 1).drop_last() =~= s@.take(i as int));
            assert(s@.take(i + 1).last() == c);
            assert(buf@ =~= old(buf)@ + quote_escaped(s@.take(i + 1)));
        }
        i += 1;
    }
    proof {
        assert(s@.take(s.len() as int) =~= s@);
    }
}

/// Format a JSON value as a short inline string for the browse pane.
pub fn format_value_short(value: &JsonValue) -> (out: String)
    requires
        short_ok(value.model()),
    ensures
        out@ == short_text(value.model()),
{
    let mut buf = String::new();
    match value {
        JsonValue::Null => {
            buf.append("null");
        },
        JsonValue::Bool(b) => {
            if *b {
                buf.append("true");
            } else {
                buf.append("false");
            }
        },
        JsonValue::Number(n) => {
            push_string(&mut buf, n);
        },
        JsonValue::Str(s) => {
            if contains_char(s.as_str(), '\n') {
                buf.append("''...''");
            } else {
                let cs = chars_of(s.as_str());
                if longer_than(&cs, 40) {
                    buf.append("\"");
                    let p = prefix_bytes(&cs, 37);
                    let ps = string_of(&p);
                    push_string(&mut buf, &ps);
                    buf.append("...\"");
                } else {
                    buf.append("\"");
                    push_quote_escaped(&mut buf, &cs);
                    buf.append("\"");
                }
            }
        },
        JsonValue::Array(items) => {
            proof {
                lemma_array_model(items);
            }
            if items.len() == 0 {
                buf.append("[]");
            } else {
                buf.append("[");
                push_decimal(&mut buf, items.len());
                buf.append("]");
            }
        },
        JsonValue::Object(entries) => {
            proof {
                lemma_object_model(entries);
            }
            if entries.len() == 0 {
                buf.append("{}");
            } else {
                buf.append("{");
                push_decimal(&mut buf, entries.len());
                buf.append("}");
            }
        },
    }
    proof {
        assert(buf@ =~= short_text(value.model()));
    }
    buf
}

/// `text` indented by two spaces.
pub open spec fn indented(text: Seq<char>) -> Seq<char> {
    "  "@ + text
}

/// The multi-line rendering of a value for the detail pane and the pager.
pub open spec fn full_lines(v: Json) -> Seq<Seq<char>> {
    match v {
        Json::Str(s) => if s.contains('\n') {
            seq!["''"@] + lines_of(s).map_values(|l: Seq<char>| indented(l)) + seq!["''"@]
        } else {
            seq!["\""@ + quote_escaped(s) + "\""@]
        },
        Json::Array(items) => if items.len() == 0 {
            seq!["[ ]"@]
        } else {
            seq!["["@] + items.map_values(|x: Json| indented(short_text(x))) + seq!["]"@]
        },
        Json::Object(entries) => if entries.len() == 0 {
            seq!["{ }"@]
        } else {
            seq!["{"@] + entries.map_values(
                |e: (Seq<char>, Json)| indented(e.0 + " = "@ + short_text(e.1) + ";"@),
            ) + seq!["}"@]
        },
        _ => seq![short_text(v)],
    }
}

/// A string holding `lit` after two spaces.
fn indented_string(text: &String) -> (out: String)
    ensures
        out@ == indented(text@),
{
    let mut buf = String::new();
    buf.append("  ");
    push_string(&mut buf, text);
    buf
}

/// Format a JSON value as multiple lines for the detail pane.
pub fn format_value_full(value: &JsonValue) -> (out: Vec<String>)
    requires
        full_ok(value.model()),
    ensures
        out@.len() == full_lines(value.model()).len(),
        forall|i: int| 0 <= i < out@.len() ==> #[trigger] out@[i]@ == full_lines(value.model())[i],
{
    let mut out: Vec<String> = Vec::new();
    match value {
        JsonValue::Str(s) => {
            if contains_char(s.as_str(), '\n') {
                let ghost want = full_lines(value.model());
                let ls = lines(s.as_str());
                out.push(String::from_str("''"));
                let mut i: usize = 0;
                while i < ls.len()
                    invariant
                        i <= ls.len(),
                        ls@.len() == lines_of(s@).len(),
                        forall|k: int| 0 <= k < ls@.len() ==> #[trigger] ls@[k]@ == lines_of(s@)[k],
                        out@.len() == i + 1,
                        out@[0]@ == "''"@,
                        forall|k: int| 0 < k <= i ==> #[trigger] out@[k]@ == indented(lines_of(s@)[k - 1]),
                    decreases ls.len() - i,
                {
                    let line = indented_string(&ls[i]);
                    out.push(line);
                    i += 1;
                }
                out.push(String::from_str("''"));
                proof {
                    let mid = lines_of(s@).map_values(|l: Seq<char>| indented(l));
                    assert forall|k: int| 0 <= k < out@.len() implies #[trigger] out@[k]@ == (seq!["''"@] + mid + seq!["''"@])[k] by {
                        if 0 < k <= ls@.len() {
                            assert(mid[k - 1] == indented(lines_of(s@)[k - 1]));
                        }
                    }
                }
            } else {
                let cs = chars_of(s.as_str());
                let mut line = String::new();
                line.append("\"");
                push_quote_escaped(&mut line, &cs);
                line.append("\"");
                out.push(line);
            }
        },
        JsonValue::Array(items) => {
            proof {
                lemma_array_model(items);
            }
            if items.len() == 0 {
                out.push(String::from_str("[ ]"));
            } else {
                let ghost im = items_model(items@);
                assert(full_ok(Json::Array(im)));
                out.push(String::from_str("["));
                let mut i: usize = 0;
                while i < items.len()
                    invariant
                        i <= items.len(),
                        im == items_model(items@),
                        forall|k: int| 0 <= k < im.len() ==> short_ok(#[trigger] im[k]),
                        out@.len() == i + 1,
                        out@[0]@ == "["@,
                        forall|k: int| 0 < k <= i ==> #[trigger] out@[k]@ == indented(short_text(im[k - 1])),
                    decreases items.len() - i,
                {
                    assert(short_ok(im[i as int]));
                    let short = format_value_short(&items[i]);
                    let line = indented_string(&short);
                    out.push(line);
                    i += 1;
                }
                out.push(String::from_str("]"));
                proof {
                    let mid = im.map_values(|x: Json| indented(short_text(x)));
                    assert forall|k: int| 0 <= k < out@.len() implies #[trigger] out@[k]@ == (seq!["["@] + mid + seq!["]"@])[k] by {
                        if 0 < k <= im.len() {
                            assert(mid[k - 1] == indented(short_text(im[k - 1])));
                        }
                    }
                }
            }
        },
        JsonValue::Object(entries) => {
            proof {
                lemma_object_model(entries);
            }
            if entries.len() == 0 {
                out.push(String::from_str("{ }"));
            } else {
                let ghost em = entries_model(entries@);
                assert(full_ok(Json::Object(em)));
                out.push(String::from_str("{"));
                let mut i: usize = 0;
                while i < entries.len()
                    invariant
                        i <= entries.len(),
                        em == entries_model(entries@),
                        forall|k: int| 0 <= k < em.len() ==> short_ok(#[trigger] em[k].1),
                        out@.len() == i + 1,
                        out@[0]@ == "{"@,
                        forall|k: int|
                            0 < k <= i ==> #[trigger] out@[k]@ == indented(
                                em[k - 1].0 + " = "@ + short_text(em[k - 1].1) + ";"@,
                            ),
                    decreases entries.len() - i,
                {
                    assert(short_ok(em[i as int].1));
                    let short = format_value_short(&entries[i].1);
                    let mut line = String::new();
                    line.append("  ");
                    push_string(&mut line, &entries[i].0);
                    line.append(" = ");
                    push_string(&mut line, &short);
                    line.append(";");
                    proof {
                        assert(line@ =~= indented(em[i as int].0 + " = "@ + short_text(em[i as int].1) + ";"@));
                    }
                    out.push(line);
                    i += 1;
                }
                out.push(String::from_str("}"));
                proof {
                    let mid = em.map_values(
                        |e: (Seq<char>, Json)| indented(e.0 + " = "@ + short_text(e.1) + ";"@),
                    );
                    assert forall|k: int| 0 <= k < out@.len() implies #[trigger] out@[k]@ == (seq!["{"@] + mid + seq!["}"@])[k] by {
                        if 0 < k <= em.len() {
                            assert(mid[k - 1] == indented(
                                em[k - 1].0 + " = "@ + short_text(em[k - 1].1) + ";"@,
                            ));
                        }
                    }
                }
            }
        },
        _ => {
            let line = format_value_short(value);
            out.push(line);
        },
    }
    out
}

} // verus!
