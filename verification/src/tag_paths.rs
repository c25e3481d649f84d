use vstd::prelude::*;

use crate::deps::DepsIndex;
use crate::json::Json;
use crate::paths::{join_dots, lemma_split_join};
use crate::tree::{find_name, lemma_find_name, Node};
use crate::tree_diff::{
    all_names, changed_under, dedup, deps_same, diff_walk_names, diff_walk_spec, has_prefix, lemma_dedup_contains,
    names_of, tag_below_values, tag_children_values, with_leaf, DiffTag, WalkState,
};

verus! {

// ---------------------------------------------------------------------------
// Paths whose names hold no dots
// ---------------------------------------------------------------------------

/// No segment of `p` holds a dot.
pub open spec fn dot_free(p: Seq<Seq<char>>) -> bool {
    forall|i: int| 0 <= i < p.len() ==> !(#[trigger] p[i]).contains('.')
}

/// Every name in the level and below it is free of dots, and no level
/// holds a name twice.
pub open spec fn plain_level(lv: Seq<(Seq<char>, Node)>) -> bool
    decreases lv, 0nat,
{
    &&& forall|i: int| 0 <= i < lv.len() ==> !(#[trigger] lv[i]).0.contains('.') && plain_node(lv[i].1)
    &&& forall|i: int, j: int| 0 <= i < j < lv.len() ==> (#[trigger] lv[i]).0 != (#[trigger] lv[j]).0
}

pub open spec fn plain_node(n: Node) -> bool
    decreases n, 0nat,
{
    match n {
        Node::Branch(ch) => plain_level(ch),
        _ => true,
    }
}

/// Joining with dots tells paths apart when their segments hold no dots.
pub proof fn lemma_join_injective(a: Seq<Seq<char>>, b: Seq<Seq<char>>)
    requires
        a.len() >= 1,
        b.len() >= 1,
        dot_free(a),
        dot_free(b),
        join_dots(a) == join_dots(b),
    ensures
        a == b,
{
    lemma_split_join(a);
    lemma_split_join(b);
}

/// The joined path `a + r` is the joined `a`, a dot and the joined `r`.
pub proof fn lemma_join_append(a: Seq<Seq<char>>, r: Seq<Seq<char>>)
    requires
        a.len() >= 1,
        r.len() >= 1,
    ensures
        join_dots(a + r) == join_dots(a) + "."@ + join_dots(r),
    decreases r.len(),
{
    if r.len() == 1 {
        assert(a + r =~= a.push(r[0]));
        assert((a + r).drop_last() =~= a);
    } else {
        lemma_join_append(a, r.drop_last());
        assert((a + r).drop_last() =~= a + r.drop_last());
        assert((a + r).last() == r.last());
        assert(join_dots(a) + "."@ + join_dots(r.drop_last()) + "."@ + r.last() =~= join_dots(a) + "."@ + (
        join_dots(r.drop_last()) + "."@ + r.last()));
    }
}

/// In a level that holds no name twice, the entry named `name` is the
/// last one, or one of those before it.
pub proof fn lemma_find_name_last(lv: Seq<(Seq<char>, Node)>, name: Seq<char>)
    requires
        lv.len() > 0,
        forall|i: int, j: int| 0 <= i < j < lv.len() ==> (#[trigger] lv[i]).0 != (#[trigger] lv[j]).0,
    ensures
        name == lv.last().0 ==> find_name(lv, name) == Some((lv.len() - 1) as int) && find_name(lv.drop_last(), name) is None,
        name != lv.last().0 ==> find_name(lv, name) == find_name(lv.drop_last(), name),
{
    let d = lv.drop_last();
    lemma_find_name(lv, name);
    lemma_find_name(d, name);
    if name == lv.last().0 {
        match find_name(d, name) {
            Some(i) => {
                assert(lv[i].0 == d[i].0);
                assert(lv[i].0 != lv[lv.len() - 1].0);
            },
            None => {},
        }
        match find_name(lv, name) {
            Some(i) => {
                if i < lv.len() - 1 {
                    assert(lv[i].0 != lv[lv.len() - 1].0);
                }
            },
            None => {
                assert(lv[lv.len() - 1].0 == name);
            },
        }
    } else {
        match (find_name(lv, name), find_name(d, name)) {
            (Some(i), Some(j)) => {
                assert(d[j] == lv[j]);
                assert(d[i] == lv[i]);
            },
            (Some(i), None) => {
                assert(d[i] == lv[i]);
            },
            (None, Some(j)) => {
                assert(d[j] == lv[j]);
            },
            (None, None) => {},
        }
    }
}

/// `q` lies strictly below `p`.
pub open spec fn strictly_under(q: Seq<Seq<char>>, p: Seq<Seq<char>>) -> bool {
    q.len() > p.len() && q.take(p.len() as int) == p
}

/// `q` is `p` or lies below it.
pub open spec fn at_or_under(q: Seq<Seq<char>>, p: Seq<Seq<char>>) -> bool {
    q.len() >= p.len() && q.take(p.len() as int) == p
}

/// The node reached from `m` by following the names of `r` through
/// branches (the first entry of each name).
pub open spec fn reach(m: Node, r: Seq<Seq<char>>) -> Option<Node>
    decreases r.len(),
{
    if r.len() == 0 {
        Some(m)
    } else {
        match m {
            Node::Branch(ch) => match find_name(ch, r[0]) {
                Some(i) => if 0 <= i < ch.len() {
                    reach(ch[i].1, r.drop_first())
                } else {
                    None
                },
                None => None,
            },
            _ => None,
        }
    }
}

proof fn lemma_plain_parts(lv: Seq<(Seq<char>, Node)>)
    requires
        plain_level(lv),
        lv.len() > 0,
    ensures
        plain_level(lv.drop_last()),
        plain_node(lv.last().1),
        !lv.last().0.contains('.'),
        forall|i: int, j: int| 0 <= i < j < lv.len() ==> (#[trigger] lv[i]).0 != (#[trigger] lv[j]).0,
{
    let d = lv.drop_last();
    assert forall|i: int| 0 <= i < d.len() implies !(#[trigger] d[i]).0.contains('.') && plain_node(d[i].1) by {
        assert(d[i] == lv[i]);
    }
    assert forall|i: int, j: int| 0 <= i < j < d.len() implies (#[trigger] d[i]).0 != (#[trigger] d[j]).0 by {
        assert(d[i] == lv[i] && d[j] == lv[j]);
    }
    assert(lv.last() == lv[lv.len() - 1]);
}

proof fn lemma_push_dot_free(p: Seq<Seq<char>>, x: Seq<char>)
    requires
        dot_free(p),
        !x.contains('.'),
    ensures
        dot_free(p.push(x)),
{
    assert forall|i: int| 0 <= i < p.push(x).len() implies !(#[trigger] p.push(x)[i]).contains('.') by {
        if i < p.len() {
            assert(p.push(x)[i] == p[i]);
        }
    }
}

/// Tagging below a node at `path` leaves every path that does not lie
/// strictly below `path` as it was.
proof fn lemma_below_keeps(
    m: Node,
    path: Seq<Seq<char>>,
    tag: DiffTag,
    st: (Map<Seq<char>, DiffTag>, Map<Seq<char>, Json>),
    q: Seq<Seq<char>>,
)
    requires
        plain_node(m),
        path.len() >= 1,
        dot_free(path),
        q.len() >= 1,
        dot_free(q),
        !strictly_under(q, path),
    ensures
        tag_below_values(m, path, tag, st).0.get(join_dots(q)) == st.0.get(join_dots(q)),
    decreases m, 0nat,
{
    match m {
        Node::Branch(ch) => {
            lemma_children_keep(ch, path, tag, st, q);
        },
        _ => {},
    }
}

proof fn lemma_children_keep(
    ch: Seq<(Seq<char>, Node)>,
    path: Seq<Seq<char>>,
    tag: DiffTag,
    st: (Map<Seq<char>, DiffTag>, Map<Seq<char>, Json>),
    q: Seq<Seq<char>>,
)
    requires
        plain_level(ch),
        path.len() >= 1,
        dot_free(path),
        q.len() >= 1,
        dot_free(q),
        !strictly_under(q, path),
    ensures
        tag_children_values(ch, path, tag, st).0.get(join_dots(q)) == st.0.get(join_dots(q)),
    decreases ch, 0nat,
{
    if ch.len() > 0 {
        lemma_plain_parts(ch);
        lemma_children_keep(ch.drop_last(), path, tag, st, q);
        let t = tag_children_values(ch.drop_last(), path, tag, st);
        let cp = path.push(ch.last().0);
        let d = join_dots(cp);
        let vals = match ch.last().1 {
            Node::Leaf(v) => t.1.insert(d, v),
            _ => t.1,
        };
        lemma_push_dot_free(path, ch.last().0);
        if d == join_dots(q) {
            lemma_join_injective(cp, q);
            assert(q.take(path.len() as int) =~= path);
        }
        if strictly_under(q, cp) {
            assert(q.take(path.len() as int) =~= q.take(cp.len() as int).take(path.len() as int));
            assert(cp.take(path.len() as int) =~= path);
        }
        lemma_below_keeps(ch.last().1, cp, tag, (t.0.insert(d, tag), vals), q);
    }
}

/// Tagging below a node at `path` gives `tag` to every path below it that
/// leads to a node, and leaves the other paths below it as they were.
proof fn lemma_below_tags(
    m: Node,
    path: Seq<Seq<char>>,
    tag: DiffTag,
    st: (Map<Seq<char>, DiffTag>, Map<Seq<char>, Json>),
    r: Seq<Seq<char>>,
)
    requires
        plain_node(m),
        path.len() >= 1,
        dot_free(path),
        r.len() >= 1,
        dot_free(r),
    ensures
        tag_below_values(m, path, tag, st).0.get(join_dots(path + r)) == if reach(m, r) is Some {
            Some(tag)
        } else {
            st.0.get(join_dots(path + r))
        },
    decreases m, 0nat,
{
    match m {
        Node::Branch(ch) => {
            lemma_children_tags(ch, path, tag, st, r);
            lemma_find_name(ch, r[0]);
        },
        _ => {},
    }
}

proof fn lemma_children_tags(
    ch: Seq<(Seq<char>, Node)>,
    path: Seq<Seq<char>>,
    tag: DiffTag,
    st: (Map<Seq<char>, DiffTag>, Map<Seq<char>, Json>),
    r: Seq<Seq<char>>,
)
    requires
        plain_level(ch),
        path.len() >= 1,
        dot_free(path),
        r.len() >= 1,
        dot_free(r),
    ensures
        tag_children_values(ch, path, tag, st).0.get(join_dots(path + r)) == if (match find_name(ch, r[0]) {
            Some(i) => 0 <= i < ch.len() && reach(ch[i].1, r.drop_first()) is Some,
            None => false,
        }) {
            Some(tag)
        } else {
            st.0.get(join_dots(path + r))
        },
    decreases ch, 0nat,
{
    let q = path + r;
    lemma_find_name(ch, r[0]);
    if ch.len() > 0 {
        lemma_plain_parts(ch);
        lemma_children_tags(ch.drop_last(), path, tag, st, r);
        lemma_find_name_last(ch, r[0]);
        lemma_find_name(ch.drop_last(), r[0]);
        let t = tag_children_values(ch.drop_last(), path, tag, st);
        let cp = path.push(ch.last().0);
        let d = join_dots(cp);
        let vals = match ch.last().1 {
            Node::Leaf(v) => t.1.insert(d, v),
            _ => t.1,
        };
        let st2 = (t.0.insert(d, tag), vals);
        lemma_push_dot_free(path, ch.last().0);
        assert(dot_free(q)) by {
            assert forall|i: int| 0 <= i < q.len() implies !(#[trigger] q[i]).contains('.') by {
                if i < path.len() {
                    assert(q[i] == path[i]);
                } else {
                    assert(q[i] == r[i - path.len()]);
                }
            }
        }
        if r[0] == ch.last().0 {
            assert(ch[ch.len() - 1] == ch.last());
            if r.len() == 1 {
                assert(q =~= cp);
                assert(!strictly_under(q, cp));
                lemma_below_keeps(ch.last().1, cp, tag, st2, q);
            } else {
                assert(q =~= cp + r.drop_first());
                assert(dot_free(r.drop_first())) by {
                    assert forall|i: int| 0 <= i < r.drop_first().len() implies !(#[trigger] r.drop_first()[i]).contains('.') by {
                        assert(r.drop_first()[i] == r[i + 1]);
                    }
                }
                lemma_below_tags(ch.last().1, cp, tag, st2, r.drop_first());
                if d == join_dots(q) {
                    lemma_join_injective(cp, q);
                }
            }
        } else {
            if d == join_dots(q) {
                lemma_join_injective(cp, q);
                assert(q[path.len() as int] == r[0]);
                assert(cp[path.len() as int] == ch.last().0);
            }
            if strictly_under(q, cp) {
                assert(q[path.len() as int] == q.take(cp.len() as int)[path.len() as int]);
                assert(q[path.len() as int] == r[0]);
            }
            lemma_below_keeps(ch.last().1, cp, tag, st2, q);
        }
    }
}

/// The names of the level, when they hold no dots.
proof fn lemma_names_dot_free(o: Seq<(Seq<char>, Node)>, n: Seq<(Seq<char>, Node)>, x: Seq<char>)
    requires
        plain_level(o),
        plain_level(n),
        all_names(o, n).contains(x),
    ensures
        !x.contains('.'),
{
    lemma_dedup_contains(names_of(o) + names_of(n), x);
    let s = names_of(o) + names_of(n);
    let k = choose|k: int| 0 <= k < s.len() && s[k] == x;
    if k < names_of(o).len() {
        assert(s[k] == o[k].0);
    } else {
        assert(s[k] == n[k - names_of(o).len()].0);
    }
}

/// Walking one more name leaves every path that is not at or below that
/// name's path as it was.
proof fn lemma_step_keeps(
    o: Seq<(Seq<char>, Node)>,
    n: Seq<(Seq<char>, Node)>,
    prefix: Seq<Seq<char>>,
    od: DepsIndex,
    nd: DepsIndex,
    names: Seq<Seq<char>>,
    st: WalkState,
    q: Seq<Seq<char>>,
)
    requires
        plain_level(o),
        plain_level(n),
        dot_free(prefix),
        names.len() > 0,
        !names.last().contains('.'),
        q.len() >= 1,
        dot_free(q),
        !at_or_under(q, prefix.push(names.last())),
    ensures
        diff_walk_names(o, n, prefix, od, nd, names, st).0.get(join_dots(q)) == diff_walk_names(
            o,
            n,
            prefix,
            od,
            nd,
            names.drop_last(),
            st,
        ).0.get(join_dots(q)),
    decreases o, n, 0nat, names.len(),
{
    let t = diff_walk_names(o, n, prefix, od, nd, names.drop_last(), st);
    let name = names.last();
    let path = prefix.push(name);
    let dot = join_dots(path);
    lemma_find_name(o, name);
    lemma_find_name(n, name);
    lemma_push_dot_free(prefix, name);
    if dot == join_dots(q) {
        lemma_join_injective(path, q);
        assert(q.take(path.len() as int) =~= path);
    }
    assert(!strictly_under(q, path));
    match (find_name(o, name), find_name(n, name)) {
        (None, Some(j)) => {
            assert(plain_node(n[j].1));
            lemma_below_keeps(n[j].1, path, DiffTag::Added, (t.0.insert(dot, DiffTag::Added), with_leaf(t.2, dot, n[j].1)), q);
        },
        (Some(i), None) => {
            assert(plain_node(o[i].1));
            lemma_below_keeps(o[i].1, path, DiffTag::Removed, (t.0.insert(dot, DiffTag::Removed), with_leaf(t.1, dot, o[i].1)), q);
        },
        (Some(i), Some(j)) => match (o[i].1, n[j].1) {
            (Node::Branch(oc), Node::Branch(nc)) => {
                assert(plain_node(o[i].1) && plain_node(n[j].1));
                lemma_spec_keeps(oc, nc, path, od, nd, t, q);
            },
            _ => {},
        },
        (None, None) => {},
    }
}

/// Walking names leaves every path that is not at or below one of their
/// paths as it was.
proof fn lemma_walk_keeps(
    o: Seq<(Seq<char>, Node)>,
    n: Seq<(Seq<char>, Node)>,
    prefix: Seq<Seq<char>>,
    od: DepsIndex,
    nd: DepsIndex,
    names: Seq<Seq<char>>,
    st: WalkState,
    q: Seq<Seq<char>>,
)
    requires
        plain_level(o),
        plain_level(n),
        dot_free(prefix),
        forall|i: int| 0 <= i < names.len() ==> !(#[trigger] names[i]).contains('.'),
        q.len() >= 1,
        dot_free(q),
        forall|i: int| 0 <= i < names.len() ==> !at_or_under(q, prefix.push(#[trigger] names[i])),
    ensures
        diff_walk_names(o, n, prefix, od, nd, names, st).0.get(join_dots(q)) == st.0.get(join_dots(q)),
    decreases o, n, 1nat, names.len(),
{
    if names.len() > 0 {
        assert(names.last() == names[names.len() - 1]);
        lemma_step_keeps(o, n, prefix, od, nd, names, st, q);
        let d = names.drop_last();
        assert forall|i: int| 0 <= i < d.len() implies !(#[trigger] d[i]).contains('.') && !at_or_under(q, prefix.push(d[i])) by {
            assert(d[i] == names[i]);
        }
        lemma_walk_keeps(o, n, prefix, od, nd, d, st, q);
    }
}

/// A whole walk below `prefix` leaves every path not strictly below it as
/// it was.
proof fn lemma_spec_keeps(
    o: Seq<(Seq<char>, Node)>,
    n: Seq<(Seq<char>, Node)>,
    prefix: Seq<Seq<char>>,
    od: DepsIndex,
    nd: DepsIndex,
    st: WalkState,
    q: Seq<Seq<char>>,
)
    requires
        plain_level(o),
        plain_level(n),
        dot_free(prefix),
        q.len() >= 1,
        dot_free(q),
        !strictly_under(q, prefix),
    ensures
        diff_walk_spec(o, n, prefix, od, nd, st).0.get(join_dots(q)) == st.0.get(join_dots(q)),
    decreases o, n, 2nat, 0nat,
{
    let names = all_names(o, n);
    assert forall|i: int| 0 <= i < names.len() implies !(#[trigger] names[i]).contains('.') && !at_or_under(
        q,
        prefix.push(names[i]),
    ) by {
        assert(names.contains(names[i]));
        lemma_names_dot_free(o, n, names[i]);
        if at_or_under(q, prefix.push(names[i])) {
            assert(q.take(prefix.len() as int) =~= q.take(prefix.len() as int + 1).take(prefix.len() as int));
            assert(prefix.push(names[i]).take(prefix.len() as int) =~= prefix);
        }
    }
    lemma_walk_keeps(o, n, prefix, od, nd, names, st, q);
}

proof fn lemma_dedup_distinct(s: Seq<Seq<char>>)
    ensures
        forall|i: int, j: int| 0 <= i < j < dedup(s).len() ==> dedup(s)[i] != dedup(s)[j],
    decreases s.len(),
{
    if s.len() > 0 {
        lemma_dedup_distinct(s.drop_last());
        let d = dedup(s.drop_last());
        if !d.contains(s.last()) {
            assert forall|i: int, j: int| 0 <= i < j < d.push(s.last()).len() implies d.push(s.last())[i] != d.push(
                s.last(),
            )[j] by {
                if j == d.len() {
                    assert(d.push(s.last())[i] == d[i]);
                    if d[i] == s.last() {
                        assert(d.contains(d[i]));
                    }
                } else {
                    assert(d.push(s.last())[i] == d[i] && d.push(s.last())[j] == d[j]);
                }
            }
        }
    }
}

/// What the diff gives a path.
#[derive(PartialEq, Eq, Structural, Clone, Copy, Debug)]
pub enum PathTag {
    /// No tag.
    Untagged,
    /// This tag.
    Tagged(DiffTag),
    /// Two branches: modified where a path below them has a tag other
    /// than unchanged, and otherwise unchanged or modified.
    Branches,
}

/// A tag other than unchanged.
pub open spec fn tagged_change(t: PathTag) -> bool {
    t matches PathTag::Tagged(u) && u != DiffTag::Unchanged
}

/// The tag that the diff gives the path `prefix + r` below the levels `o`
/// (old) and `n` (new), told by which side holds it and by its kind and
/// value. A path that only the new side holds is added, one that only the
/// old side holds removed, and so is everything below such a path; two
/// leaves are unchanged when their values are equal and the path has the
/// same dependencies and dependents in both indices, two placeholders when
/// it has the same dependencies; any other two nodes but two branches are
/// modified, and nothing below them is tagged.
pub open spec fn tag_of_path(
    o: Seq<(Seq<char>, Node)>,
    n: Seq<(Seq<char>, Node)>,
    prefix: Seq<Seq<char>>,
    r: Seq<Seq<char>>,
    od: DepsIndex,
    nd: DepsIndex,
) -> PathTag
    decreases o,
{
    if r.len() == 0 {
        PathTag::Untagged
    } else {
        let x = r[0];
        let rest = r.drop_first();
        let p = prefix.push(x);
        let k = join_dots(p);
        proof {
            lemma_find_name(o, x);
        }
        match (find_name(o, x), find_name(n, x)) {
            (None, None) => PathTag::Untagged,
            (None, Some(j)) => if 0 <= j < n.len() && reach(n[j].1, rest) is Some {
                PathTag::Tagged(DiffTag::Added)
            } else {
                PathTag::Untagged
            },
            (Some(i), None) => if 0 <= i < o.len() && reach(o[i].1, rest) is Some {
                PathTag::Tagged(DiffTag::Removed)
            } else {
                PathTag::Untagged
            },
            (Some(i), Some(j)) => if 0 <= i < o.len() && 0 <= j < n.len() {
                if rest.len() == 0 {
                    match (o[i].1, n[j].1) {
                        (Node::Leaf(a), Node::Leaf(b)) => PathTag::Tagged(
                            if a == b && deps_same(od, nd, k) {
                                DiffTag::Unchanged
                            } else {
                                DiffTag::Modified
                            },
                        ),
                        (Node::Phantom, Node::Phantom) => PathTag::Tagged(
                            if deps_same(od, nd, k) {
                                DiffTag::Unchanged
                            } else {
                                DiffTag::Modified
                            },
                        ),
                        (Node::Branch(_), Node::Branch(_)) => PathTag::Branches,
                        _ => PathTag::Tagged(DiffTag::Modified),
                    }
                } else {
                    match (o[i].1, n[j].1) {
                        (Node::Branch(ac), Node::Branch(bc)) => tag_of_path(ac, bc, p, rest, od, nd),
                        _ => PathTag::Untagged,
                    }
                }
            } else {
                PathTag::Untagged
            },
        }
    }
}

/// What a walk gave a path (`got`) agrees with `tag_of_path` (`want`) and
/// with what the path had before the walk (`before`).
pub open spec fn tag_fits(want: PathTag, got: Option<DiffTag>, before: Option<DiffTag>) -> bool {
    match want {
        PathTag::Untagged => got == before,
        PathTag::Tagged(t) => got == Some(t),
        PathTag::Branches => got == Some(DiffTag::Modified) || got == Some(DiffTag::Unchanged),
    }
}

/// Some path below `prefix + r` has a tag other than unchanged.
pub open spec fn change_below(
    o: Seq<(Seq<char>, Node)>,
    n: Seq<(Seq<char>, Node)>,
    prefix: Seq<Seq<char>>,
    r: Seq<Seq<char>>,
    od: DepsIndex,
    nd: DepsIndex,
) -> bool {
    exists|q: Seq<Seq<char>>| q.len() >= 1 && dot_free(q) && tagged_change(#[trigger] tag_of_path(o, n, prefix, r + q, od, nd))
}

proof fn lemma_walk_tags(
    o: Seq<(Seq<char>, Node)>,
    n: Seq<(Seq<char>, Node)>,
    prefix: Seq<Seq<char>>,
    od: DepsIndex,
    nd: DepsIndex,
    names: Seq<Seq<char>>,
    st: WalkState,
    r: Seq<Seq<char>>,
)
    requires
        plain_level(o),
        plain_level(n),
        dot_free(prefix),
        r.len() >= 1,
        dot_free(r),
        forall|i: int| 0 <= i < names.len() ==> !(#[trigger] names[i]).contains('.'),
        forall|i: int, j: int| 0 <= i < j < names.len() ==> names[i] != names[j],
    ensures
        ({
            let k = join_dots(prefix + r);
            let got = diff_walk_names(o, n, prefix, od, nd, names, st).0.get(k);
            if names.contains(r[0]) {
                &&& tag_fits(tag_of_path(o, n, prefix, r, od, nd), got, st.0.get(k))
                &&& tag_of_path(o, n, prefix, r, od, nd) is Branches && change_below(o, n, prefix, r, od, nd) ==> got
                    == Some(DiffTag::Modified)
            } else {
                got == st.0.get(k)
            }
        }),
    decreases o, n, 1nat, names.len(),
{
    let q = prefix + r;
    let k = join_dots(q);
    assert(dot_free(q)) by {
        assert forall|i: int| 0 <= i < q.len() implies !(#[trigger] q[i]).contains('.') by {
            if i < prefix.len() {
                assert(q[i] == prefix[i]);
            } else {
                assert(q[i] == r[i - prefix.len()]);
            }
        }
    }
    if names.len() > 0 {
        let x = names.last();
        let d = names.drop_last();
        assert(x == names[names.len() - 1]);
        assert forall|i: int| 0 <= i < d.len() implies !(#[trigger] d[i]).contains('.') by {
            assert(d[i] == names[i]);
        }
        assert forall|i: int, j: int| 0 <= i < j < d.len() implies d[i] != d[j] by {
            assert(d[i] == names[i] && d[j] == names[j]);
        }
        lemma_walk_tags(o, n, prefix, od, nd, d, st, r);
        let t = diff_walk_names(o, n, prefix, od, nd, d, st);
        if r[0] != x {
            assert(q[prefix.len() as int] == r[0]);
            if at_or_under(q, prefix.push(x)) {
                assert(q[prefix.len() as int] == q.take(prefix.len() as int + 1)[prefix.len() as int]);
            }
            lemma_step_keeps(o, n, prefix, od, nd, names, st, q);
            if names.contains(r[0]) {
                let m = choose|m: int| 0 <= m < names.len() && names[m] == r[0];
                assert(d[m] == r[0]);
            }
            if d.contains(r[0]) {
                let m = choose|m: int| 0 <= m < d.len() && d[m] == r[0];
                assert(names[m] == r[0]);
            }
        } else {
            if d.contains(x) {
                let m = choose|m: int| 0 <= m < d.len() && d[m] == x;
                assert(names[m] == names[names.len() - 1]);
            }
            assert(names.contains(r[0]));
            let rest = r.drop_first();
            let path = prefix.push(x);
            let dot = join_dots(path);
            lemma_push_dot_free(prefix, x);
            lemma_find_name(o, x);
            lemma_find_name(n, x);
            assert(q =~= path + rest);
            if rest.len() > 0 {
                assert(dot_free(rest)) by {
                    assert forall|i: int| 0 <= i < rest.len() implies !(#[trigger] rest[i]).contains('.') by {
                        assert(rest[i] == r[i + 1]);
                    }
                }
                if dot == k {
                    lemma_join_injective(path, q);
                }
            } else {
                assert(q =~= path);
            }
            let got = diff_walk_names(o, n, prefix, od, nd, names, st).0.get(k);
            let want = tag_of_path(o, n, prefix, r, od, nd);
            assert(t.0.get(k) == st.0.get(k));
            match (find_name(o, x), find_name(n, x)) {
                (None, Some(j)) => {
                    assert(plain_node(n[j].1));
                    let st2 = (t.0.insert(dot, DiffTag::Added), with_leaf(t.2, dot, n[j].1));
                    if rest.len() == 0 {
                        lemma_below_keeps(n[j].1, path, DiffTag::Added, st2, q);
                    } else {
                        lemma_below_tags(n[j].1, path, DiffTag::Added, st2, rest);
                    }
                    assert(tag_fits(want, got, st.0.get(k)));
                },
                (Some(i), None) => {
                    assert(plain_node(o[i].1));
                    let st2 = (t.0.insert(dot, DiffTag::Removed), with_leaf(t.1, dot, o[i].1));
                    if rest.len() == 0 {
                        lemma_below_keeps(o[i].1, path, DiffTag::Removed, st2, q);
                    } else {
                        lemma_below_tags(o[i].1, path, DiffTag::Removed, st2, rest);
                    }
                    assert(tag_fits(want, got, st.0.get(k)));
                },
                (Some(i), Some(j)) => {
                    match (o[i].1, n[j].1) {
                        (Node::Branch(oc), Node::Branch(nc)) => {
                            assert(plain_node(o[i].1) && plain_node(n[j].1));
                            let t1 = diff_walk_spec(oc, nc, path, od, nd, t);
                            if rest.len() > 0 {
                                lemma_spec_tags(oc, nc, path, od, nd, t, rest);
                                assert(want == tag_of_path(oc, nc, path, rest, od, nd));
                                if change_below(o, n, prefix, r, od, nd) {
                                    let q2 = choose|q2: Seq<Seq<char>>| q2.len() >= 1 && dot_free(q2) && tagged_change(#[trigger] tag_of_path(o, n, prefix, r + q2, od, nd));
                                    assert((r + q2).drop_first() =~= rest + q2);
                                    assert((r + q2)[0] == x);
                                    assert(tag_of_path(o, n, prefix, r + q2, od, nd) == tag_of_path(oc, nc, path, rest + q2, od, nd));
                                    assert(change_below(oc, nc, path, rest, od, nd));
                                }
                            } else {
                                if change_below(o, n, prefix, r, od, nd) {
                                    let q2 = choose|q2: Seq<Seq<char>>| q2.len() >= 1 && dot_free(q2) && tagged_change(#[trigger] tag_of_path(o, n, prefix, r + q2, od, nd));
                                    assert((r + q2).drop_first() =~= q2);
                                    assert((r + q2)[0] == x);
                                    assert(tag_of_path(o, n, prefix, r + q2, od, nd) == tag_of_path(oc, nc, path, q2, od, nd));
                                    lemma_spec_tags(oc, nc, path, od, nd, t, q2);
                                    let k2 = join_dots(path + q2);
                                    lemma_join_append(path, q2);
                                    assert(t1.0.contains_key(k2));
                                    assert(has_prefix(k2, dot)) by {
                                        reveal_strlit(".");
                                        assert(k2.take(dot.len() as int) =~= dot);
                                    }
                                    assert(k2 != dot) by {
                                        reveal_strlit(".");
                                        assert(k2.len() > dot.len());
                                    }
                                    assert(changed_under(t1.0, dot));
                                }
                                assert(tag_fits(want, got, st.0.get(k)));
                            }
                        },
                        _ => {
                            assert(tag_fits(want, got, st.0.get(k)));
                        },
                    }
                },
                (None, None) => {
                    assert(tag_fits(want, got, st.0.get(k)));
                },
            }
        }
    }
}

proof fn lemma_spec_tags(
    o: Seq<(Seq<char>, Node)>,
    n: Seq<(Seq<char>, Node)>,
    prefix: Seq<Seq<char>>,
    od: DepsIndex,
    nd: DepsIndex,
    st: WalkState,
    r: Seq<Seq<char>>,
)
    requires
        plain_level(o),
        plain_level(n),
        dot_free(prefix),
        r.len() >= 1,
        dot_free(r),
    ensures
        tag_fits(
            tag_of_path(o, n, prefix, r, od, nd),
            diff_walk_spec(o, n, prefix, od, nd, st).0.get(join_dots(prefix + r)),
            st.0.get(join_dots(prefix + r)),
        ),
        tag_of_path(o, n, prefix, r, od, nd) is Branches && change_below(o, n, prefix, r, od, nd) ==> diff_walk_spec(
            o,
            n,
            prefix,
            od,
            nd,
            st,
        ).0.get(join_dots(prefix + r)) == Some(DiffTag::Modified),
    decreases o, n, 2nat, 0nat,
{
    let names = all_names(o, n);
    assert forall|i: int| 0 <= i < names.len() implies !(#[trigger] names[i]).contains('.') by {
        assert(names.contains(names[i]));
        lemma_names_dot_free(o, n, names[i]);
    }
    lemma_dedup_distinct(names_of(o) + names_of(n));
    lemma_walk_tags(o, n, prefix, od, nd, names, st, r);
    if !names.contains(r[0]) {
        lemma_dedup_contains(names_of(o) + names_of(n), r[0]);
        lemma_find_name(o, r[0]);
        lemma_find_name(n, r[0]);
        let s = names_of(o) + names_of(n);
        match find_name(o, r[0]) {
            Some(i) => {
                assert(s[i] == o[i].0);
            },
            None => {},
        }
        match find_name(n, r[0]) {
            Some(j) => {
                assert(s[names_of(o).len() + j] == n[j].0);
            },
            None => {},
        }
    }
}

/// The tags of a diff of two trees, told path by path: a path is tagged
/// as `tag_of_path` states, by which side holds it and by its kind and
/// value; a path that no side holds, or that lies below two nodes of other
/// kinds, is not tagged; and where both sides hold branches the path is
/// modified when some path below it has a tag other than unchanged, and
/// otherwise unchanged or modified. It holds for trees whose names hold no
/// dots and whose levels hold no name twice (a name with a dot joins to the
/// same key as a deeper path).
pub proof fn lemma_diff_tags_by_path(
    lo: Seq<(Seq<char>, Node)>,
    ln: Seq<(Seq<char>, Node)>,
    od: DepsIndex,
    nd: DepsIndex,
    q: Seq<Seq<char>>,
)
    requires
        plain_level(lo),
        plain_level(ln),
        q.len() >= 1,
        dot_free(q),
    ensures
        ({
            let tags = diff_walk_spec(lo, ln, seq![], od, nd, (Map::empty(), Map::empty(), Map::empty())).0;
            let k = join_dots(q);
            &&& match tag_of_path(lo, ln, seq![], q, od, nd) {
                PathTag::Untagged => !tags.contains_key(k),
                PathTag::Tagged(t) => tags.contains_key(k) && tags[k] == t,
                PathTag::Branches => tags.contains_key(k) && (tags[k] == DiffTag::Modified || tags[k]
                    == DiffTag::Unchanged),
            }
            &&& tag_of_path(lo, ln, seq![], q, od, nd) is Branches && change_below(lo, ln, seq![], q, od, nd)
                ==> tags.contains_key(k) && tags[k] == DiffTag::Modified
        }),
{
    let st: WalkState = (Map::empty(), Map::empty(), Map::empty());
    assert(seq![] + q =~= q);
    assert(dot_free(Seq::<Seq<char>>::empty()));
    lemma_spec_tags(lo, ln, seq![], od, nd, st, q);
}

} // verus!
