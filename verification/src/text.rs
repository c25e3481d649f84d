use vstd::prelude::*;

verus! {

// ---------------------------------------------------------------------------
// Character-level building blocks
// ---------------------------------------------------------------------------

/// The characters of `s`, in order.
pub fn chars_of(s: &str) -> (out: Vec<char>)
    ensures
        out@ == s@,
{
    let mut out: Vec<char> = Vec::new();
    for c in it: s.chars()
        invariant
            out@ == it.seq().take(it.index() as int),
            it.seq() == s@,
    {
        out.push(c);
    }
    out
}

/// Appends one character to `buf`. Calls `String::push`, which the standard
/// library documents as appending the given char to the end of the string.
#[verifier::external_body]
pub(crate) fn push_char(buf: &mut String, c: char)
    ensures
        final(buf)@ == old(buf)@.push(c),
{
    buf.push(c);
}

/// Appends every character of `s` to `buf`.
pub fn push_chars(buf: &mut String, s: &Vec<char>)
    ensures
        final(buf)@ == old(buf)@ + s@,
{
    let mut i: usize = 0;
    while i < s.len()
        invariant
            i <= s.len(),
            buf@ == old(buf)@ + s@.take(i as int),
        decreases s.len() - i,
    {
        push_char(buf, s[i]);
        proof {
            assert(s@.take(i + 1) =~= s@.take(i as int).push(s@[i as int]));
        }
        i += 1;
    }
    proof {
        assert(s@.take(s.len() as int) =~= s@);
    }
}

/// A new string holding the characters of `s`.
pub fn string_of(s: &Vec<char>) -> (out: String)
    ensures
        out@ == s@,
{
    let mut out = String::new();
    push_chars(&mut out, s);
    out
}

/// Appends `s` to `buf`.
pub fn push_string(buf: &mut String, s: &String)
    ensures
        final(buf)@ == old(buf)@ + s@,
{
    buf.append(s.as_str());
}

/// A copy of `s`.
pub fn copy_string(s: &String) -> (out: String)
    ensures
        out@ == s@,
{
    let mut out = String::new();
    push_string(&mut out, s);
    out
}

/// Whether two strings hold the same characters.
pub fn same_text(a: &String, b: &String) -> (r: bool)
    ensures
        r == (a@ == b@),
{
    a.eq(b)
}

/// Whether `c` occurs in `s`.
pub fn contains_char(s: &str, c: char) -> (r: bool)
    ensures
        r == s@.contains(c),
{
    let v = chars_of(s);
    let mut i: usize = 0;
    while i < v.len()
        invariant
            i <= v.len(),
            v@ == s@,
            forall|j: int| 0 <= j < i ==> v@[j] != c,
        decreases v.len() - i,
    {
        if v[i] == c {
            return true;
        }
        i += 1;
    }
    false
}

// ---------------------------------------------------------------------------
// Lines
// ---------------------------------------------------------------------------

/// Index of the first line feed in `s`, or `s.len()` when there is none.
pub open spec fn line_end(s: Seq<char>) -> nat
    decreases s.len(),
{
    if s.len() == 0 {
        0
    } else if s[0] == '\n' {
        0
    } else {
        1 + line_end(s.drop_first())
    }
}

/// A line without its terminating carriage return, if it has one.
pub open spec fn strip_cr(s: Seq<char>) -> Seq<char> {
    if s.len() > 0 && s.last() == '\r' {
        s.drop_last()
    } else {
        s
    }
}

/// The lines of `s`, as `str::lines` gives them: split at `\n` (a `\r` just
/// before a `\n` belongs to the line ending), with no empty line after a final
/// line ending.
pub open spec fn lines_of(s: Seq<char>) -> Seq<Seq<char>>
    decreases s.len(),
{
    if s.len() == 0 {
        seq![]
    } else {
        let k = line_end(s);
        if k >= s.len() {
            seq![s]
        } else {
            seq![strip_cr(s.take(k as int))] + lines_of(s.skip(k as int + 1))
        }
    }
}

proof fn lemma_line_end_bound(s: Seq<char>)
    ensures
        line_end(s) <= s.len(),
        forall|i: int| 0 <= i < line_end(s) ==> s[i] != '\n',
        line_end(s) < s.len() ==> s[line_end(s) as int] == '\n',
    decreases s.len(),
{
    if s.len() > 0 && s[0] != '\n' {
        lemma_line_end_bound(s.drop_first());
        assert forall|i: int| 0 <= i < line_end(s) implies s[i] != '\n' by {
            if i > 0 {
                assert(s[i] == s.drop_first()[i - 1]);
            }
        }
    }
}

proof fn lemma_line_end_concat(cur: Seq<char>, rest: Seq<char>)
    requires
        !cur.contains('\n'),
        rest.len() > 0,
        rest[0] == '\n',
    ensures
        line_end(cur + rest) == cur.len(),
    decreases cur.len(),
{
    if cur.len() > 0 {
        assert(cur[0] != '\n') by {
            assert(cur.contains(cur[0]));
        }
        assert((cur + rest).drop_first() =~= cur.drop_first() + rest);
        assert(!cur.drop_first().contains('\n')) by {
            if cur.drop_first().contains('\n') {
                let j = choose|j: int| 0 <= j < cur.drop_first().len() && cur.drop_first()[j] == '\n';
                assert(cur[j + 1] == '\n');
            }
        }
        lemma_line_end_concat(cur.drop_first(), rest);
    } else {
        assert(cur + rest =~= rest);
    }
}

proof fn lemma_line_end_whole(cur: Seq<char>)
    requires
        !cur.contains('\n'),
    ensures
        line_end(cur) == cur.len(),
    decreases cur.len(),
{
    if cur.len() > 0 {
        assert(cur[0] != '\n') by {
            assert(cur.contains(cur[0]));
        }
        assert(!cur.drop_first().contains('\n')) by {
            if cur.drop_first().contains('\n') {
                let j = choose|j: int| 0 <= j < cur.drop_first().len() && cur.drop_first()[j] == '\n';
                assert(cur[j + 1] == '\n');
            }
        }
        lemma_line_end_whole(cur.drop_first());
    }
}

/// Drops a trailing carriage return from the line `cur`.
fn strip_cr_chars(cur: &mut Vec<char>)
    ensures
        final(cur)@ == strip_cr(old(cur)@),
{
    let n = cur.len();
    if n > 0 && cur[n - 1] == '\r' {
        cur.pop();
    }
}

/// The lines of `s` (`str::lines`).
pub fn lines(s: &str) -> (out: Vec<String>)
    ensures
        out@.len() == lines_of(s@).len(),
        forall|i: int| 0 <= i < out@.len() ==> #[trigger] out@[i]@ == lines_of(s@)[i],
{
    let v = chars_of(s);
    let mut out: Vec<String> = Vec::new();
    let mut cur: Vec<char> = Vec::new();
    let ghost mut done: Seq<Seq<char>> = seq![];
    let mut i: usize = 0;
    proof {
        assert(cur@ + v@.skip(0) =~= s@);
        assert(done + lines_of(s@) =~= lines_of(s@));
    }
    while i < v.len()
        invariant
            i <= v.len(),
            v@ == s@,
            !cur@.contains('\n'),
            out@.len() == done.len(),
            forall|j: int| 0 <= j < out@.len() ==> #[trigger] out@[j]@ == done[j],
            lines_of(s@) == done + lines_of(cur@ + v@.skip(i as int)),
        decreases v.len() - i,
    {
        let c = v[i];
        if c == '\n' {
            proof {
                let t = v@.skip(i as int);
                assert(t[0] == '\n');
                lemma_line_end_concat(cur@, t);
                let whole = cur@ + t;
                assert(whole.take(cur@.len() as int) =~= cur@);
                assert(whole.skip(cur@.len() as int + 1) =~= v@.skip(i + 1));
                assert(whole.len() > 0);
                assert(lines_of(whole) == seq![strip_cr(cur@)] + lines_of(v@.skip(i + 1)));
            }
            let ghost before = cur@;
            strip_cr_chars(&mut cur);
            let line = string_of(&cur);
            out.push(line);
            proof {
                let empty: Seq<char> = seq![];
                assert(empty + v@.skip(i + 1) =~= v@.skip(i + 1));
                done = done.push(strip_cr(before));
                assert(lines_of(s@) =~= done + lines_of(empty + v@.skip(i + 1)));
            }
            cur = Vec::new();
            proof {
                assert(!cur@.contains('\n'));
            }
        } else {
            let ghost old_cur = cur@;
            cur.push(c);
            proof {
                assert(old_cur + v@.skip(i as int) =~= cur@ + v@.skip(i + 1));
                assert(!cur@.contains('\n')) by {
                    if cur@.contains('\n') {
                        let j = choose|j: int| 0 <= j < cur@.len() && cur@[j] == '\n';
                        if j < cur@.len() - 1 {
                            assert(cur@.drop_last().contains('\n')) by {
                                assert(cur@.drop_last()[j] == '\n');
                            }
                        }
                    }
                }
            }
        }
        i += 1;
    }
    proof {
        assert(cur@ + v@.skip(v.len() as int) =~= cur@);
    }
    if cur.len() > 0 {
        proof {
            lemma_line_end_whole(cur@);
        }
        let line = string_of(&cur);
        out.push(line);
        proof {
            done = done.push(cur@);
            assert(lines_of(s@) =~= done);
        }
    } else {
        proof {
            assert(lines_of(s@) =~= done);
        }
    }
    out
}

} // verus!
