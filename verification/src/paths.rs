use vstd::prelude::*;

use crate::text::{chars_of, copy_string, push_char, push_string, string_of};

verus! {

// ---------------------------------------------------------------------------
// Dotted paths
// ---------------------------------------------------------------------------

/// The segments joined with dots.
pub open spec fn join_dots(segs: Seq<Seq<char>>) -> Seq<char>
    decreases segs.len(),
{
    if segs.len() == 0 {
        seq![]
    } else if segs.len() == 1 {
        segs[0]
    } else {
        join_dots(segs.drop_last()) + "."@ + segs.last()
    }
}

/// The pieces of `s` between dots (`str::split('.')`): one more piece than
/// there are dots, empty pieces included.
pub open spec fn split_dots(s: Seq<char>) -> Seq<Seq<char>>
    decreases s.len(),
{
    if s.len() == 0 {
        seq![seq![]]
    } else {
        let parts = split_dots(s.drop_last());
        if s.last() == '.' {
            parts.push(seq![])
        } else {
            parts.update(parts.len() - 1, parts.last().push(s.last()))
        }
    }
}

/// The texts of a list of strings.
pub open spec fn texts(v: Seq<String>) -> Seq<Seq<char>> {
    Seq::new(v.len(), |i: int| v[i]@)
}

pub proof fn lemma_split_dots_len(s: Seq<char>)
    ensures
        split_dots(s).len() >= 1,
    decreases s.len(),
{
    if s.len() > 0 {
        lemma_split_dots_len(s.drop_last());
    }
}

/// Joins `segs` with dots.
pub fn join_path(segs: &Vec<String>) -> (out: String)
    ensures
        out@ == join_dots(texts(segs@)),
{
    let mut out = String::new();
    let mut i: usize = 0;
    while i < segs.len()
        invariant
            i <= segs.len(),
            out@ == join_dots(texts(segs@).take(i as int)),
        decreases segs.len() - i,
    {
        if i > 0 {
            push_char(&mut out, '.');
        }
        push_string(&mut out, &segs[i]);
        proof {
            let t = texts(segs@);
            assert(t.take(i + 1).drop_last() =~= t.take(i as int));
            if i == 0 {
                assert(out@ =~= join_dots(t.take(i + 1)));
            } else {
                assert("."@ =~= seq!['.']) by {
                    reveal_strlit(".");
                }
                assert(out@ =~= join_dots(t.take(i + 1)));
            }
        }
        i += 1;
    }
    proof {
        assert(texts(segs@).take(segs.len() as int) =~= texts(segs@));
    }
    out
}

/// Splits `s` at every dot.
pub fn split_path(s: &str) -> (out: Vec<String>)
    ensures
        texts(out@) == split_dots(s@),
{
    let v = chars_of(s);
    let mut out: Vec<String> = Vec::new();
    let mut cur: Vec<char> = Vec::new();
    let mut i: usize = 0;
    while i < v.len()
        invariant
            i <= v.len(),
            v@ == s@,
            texts(out@).push(cur@) == split_dots(v@.take(i as int)),
        decreases v.len() - i,
    {
        let c = v[i];
        proof {
            assert(v@.take(i + 1).drop_last() =~= v@.take(i as int));
            lemma_split_dots_len(v@.take(i as int));
        }
        if c == '.' {
            let piece = string_of(&cur);
            out.push(piece);
            cur = Vec::new();
            proof {
                assert(texts(out@).push(cur@) =~= split_dots(v@.take(i + 1)));
            }
        } else {
            let ghost before = texts(out@).push(cur@);
            cur.push(c);
            proof {
                assert(texts(out@).push(cur@) =~= before.update(before.len() - 1, before.last().push(c)));
            }
        }
        i += 1;
    }
    let piece = string_of(&cur);
    out.push(piece);
    proof {
        assert(v@.take(v.len() as int) =~= v@);
        assert(texts(out@) =~= split_dots(v@));
    }
    out
}

/// Splitting what was joined gives the segments back, when no segment holds a dot.
pub proof fn lemma_split_join(segs: Seq<Seq<char>>)
    requires
        segs.len() >= 1,
        forall|i: int| 0 <= i < segs.len() ==> !(#[trigger] segs[i]).contains('.'),
    ensures
        split_dots(join_dots(segs)) == segs,
    decreases segs.len(),
{
    lemma_split_append(seq![], segs.last());
    if segs.len() == 1 {
        assert(seq![seq![]].update(0, seq![] + segs[0]) =~= segs) by {
            assert(seq![] + segs[0] =~= segs[0]);
        }
    } else {
        let init = segs.drop_last();
        lemma_split_join(init);
        let j = join_dots(init);
        reveal_strlit(".");
        lemma_split_append(j + "."@, segs.last());
        assert((j + "."@).drop_last() =~= j);
        assert(split_dots(j + "."@) == split_dots(j).push(seq![]));
        let sp = split_dots(j).push(seq![]);
        assert(sp.update(sp.len() - 1, sp.last() + segs.last()) =~= segs) by {
            assert(sp.last() + segs.last() =~= segs.last());
        }
    }
}

/// Splitting `a + t` where `t` has no dot extends the last piece of `a` by `t`.
proof fn lemma_split_append(a: Seq<char>, t: Seq<char>)
    requires
        !t.contains('.'),
    ensures
        split_dots(a + t) == {
            let p = split_dots(a);
            p.update(p.len() - 1, p.last() + t)
        },
    decreases t.len(),
{
    lemma_split_dots_len(a);
    if t.len() == 0 {
        assert(a + t =~= a);
        let p = split_dots(a);
        assert(p.update(p.len() - 1, p.last() + t) =~= p) by {
            assert(p.last() + t =~= p.last());
        }
    } else {
        let t0 = t.drop_last();
        assert(!t0.contains('.')) by {
            if t0.contains('.') {
                let k = choose|k: int| 0 <= k < t0.len() && t0[k] == '.';
                assert(t[k] == '.');
            }
        }
        lemma_split_append(a, t0);
        assert((a + t).drop_last() =~= a + t0);
        assert((a + t).last() == t.last());
        assert(t.last() != '.') by {
            assert(t[t.len() - 1] == t.last());
        }
        let p = split_dots(a);
        assert((p.last() + t0).push(t.last()) =~= p.last() + t);
        let q = p.update(p.len() - 1, p.last() + t0);
        assert(q.len() == p.len());
        assert(q.last() == p.last() + t0);
        assert(q.update(q.len() - 1, q.last().push(t.last())) =~= p.update(p.len() - 1, p.last() + t));
    }
}

// ---------------------------------------------------------------------------
// Substrings and case
// ---------------------------------------------------------------------------

/// `needle` occurs in `hay` at position `i`.
pub open spec fn occurs_at(hay: Seq<char>, needle: Seq<char>, i: int) -> bool {
    0 <= i && i + needle.len() <= hay.len() && hay.subrange(i, i + needle.len()) == needle
}

/// `needle` occurs somewhere in `hay` (`str::contains`).
pub open spec fn contains_text(hay: Seq<char>, needle: Seq<char>) -> bool {
    exists|i: int| occurs_at(hay, needle, i)
}

/// Whether `needle` occurs in `hay`.
pub fn text_contains(hay: &String, needle: &String) -> (r: bool)
    ensures
        r == contains_text(hay@, needle@),
{
    let h = chars_of(hay.as_str());
    let n = chars_of(needle.as_str());
    if n.len() > h.len() {
        proof {
            assert forall|i: int| !occurs_at(hay@, needle@, i) by {}
        }
        return false;
    }
    let mut i: usize = 0;
    while i <= h.len() - n.len()
        invariant
            h@ == hay@,
            n@ == needle@,
            n.len() <= h.len(),
            i <= h.len() - n.len() + 1,
            forall|k: int| 0 <= k < i ==> !occurs_at(hay@, needle@, k),
        decreases h.len() + 1 - i,
    {
        let mut j: usize = 0;
        while j < n.len() && h[i + j] == n[j]
            invariant
                h@ == hay@,
                n@ == needle@,
                i + n.len() <= h.len(),
                j <= n.len(),
                forall|k: int| 0 <= k < j ==> h@[i + k] == n@[k],
            decreases n.len() - j,
        {
            j += 1;
        }
        if j == n.len() {
            proof {
                assert(hay@.subrange(i as int, i + needle@.len()) =~= needle@);
                assert(occurs_at(hay@, needle@, i as int));
            }
            return true;
        }
        proof {
            assert(!occurs_at(hay@, needle@, i as int)) by {
                if occurs_at(hay@, needle@, i as int) {
                    assert(hay@.subrange(i as int, i + needle@.len())[j as int] == h@[i + j]);
                }
            }
        }
        i += 1;
    }
    proof {
        assert forall|k: int| !occurs_at(hay@, needle@, k) by {
            if occurs_at(hay@, needle@, k) {
                assert(k < i);
            }
        }
    }
    false
}

/// What `str::to_lowercase` returns for `s`: a function of `s` alone, whose
/// full statement is the Unicode lowercase mapping.
pub uninterp spec fn lowercase_of(s: Seq<char>) -> Seq<char>;

/// The lowercase form of `s`. Calls `str::to_lowercase`; the contract claims
/// only that the result depends on the characters of `s` alone.
#[verifier::external_body]
pub(crate) fn to_lowercase(s: &String) -> (out: String)
    ensures
        out@ == lowercase_of(s@),
{
    s.to_lowercase()
}

/// Whether `query` occurs in `text`, ignoring case.
pub open spec fn matches_query(text: Seq<char>, query: Seq<char>) -> bool {
    contains_text(lowercase_of(text), lowercase_of(query))
}

/// A copy of a list of strings.
pub fn copy_strings(v: &Vec<String>) -> (out: Vec<String>)
    ensures
        texts(out@) == texts(v@),
{
    let mut out: Vec<String> = Vec::new();
    let mut i: usize = 0;
    while i < v.len()
        invariant
            i <= v.len(),
            out@.len() == i,
            texts(out@) == texts(v@).take(i as int),
        decreases v.len() - i,
    {
        out.push(copy_string(&v[i]));
        proof {
            assert(out@[i as int]@ == v@[i as int]@);
            assert(texts(out@) =~= texts(v@).take(i + 1));
        }
        i += 1;
    }
    proof {
        assert(texts(v@).take(v.len() as int) =~= texts(v@));
    }
    out
}

} // verus!
