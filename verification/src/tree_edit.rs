use vstd::prelude::*;

use crate::deps::{table_model, DepsIndex, Table};
use crate::json::copy_json;
use crate::paths::{lemma_split_dots_len, split_dots, split_path, texts};
use crate::tree::{
    find_name, lemma_branch_model, lemma_find_name, lemma_sort_entries, level, node_at, position_of,
    sort_branches_first, sort_entries, ConfigNode, Node,
};
use crate::text::copy_string;

verus! {

// ---------------------------------------------------------------------------
// Making a path exist
// ---------------------------------------------------------------------------

/// The children of a branch; nothing for any other node.
pub open spec fn branch_children(n: Node) -> Seq<(Seq<char>, Node)> {
    match n {
        Node::Branch(ch) => ch,
        _ => seq![],
    }
}

/// `lv` with the path `segs` made to exist: each missing segment is added at
/// the end of its level, as a placeholder when it is the last segment and
/// as a branch otherwise; an existing node that the path must pass through
/// becomes a branch (a leaf's value is dropped).
pub open spec fn ensure_level(lv: Seq<(Seq<char>, Node)>, segs: Seq<Seq<char>>) -> Seq<(Seq<char>, Node)>
    decreases segs.len(),
{
    if segs.len() == 0 {
        lv
    } else {
        let name = segs[0];
        let rest = segs.drop_first();
        match find_name(lv, name) {
            Some(i) => if rest.len() == 0 {
                lv
            } else {
                lv.update(i, (name, Node::Branch(ensure_level(branch_children(lv[i].1), rest))))
            },
            None => if rest.len() == 0 {
                lv.push((name, Node::Phantom))
            } else {
                lv.push((name, Node::Branch(ensure_level(seq![], rest))))
            },
        }
    }
}

/// The first entry named `name` is at `i` when `i` holds that name and no
/// entry before it does.
pub proof fn lemma_find_name_at(lv: Seq<(Seq<char>, Node)>, name: Seq<char>, i: int)
    requires
        0 <= i < lv.len(),
        lv[i].0 == name,
        forall|k: int| 0 <= k < i ==> lv[k].0 != name,
    ensures
        find_name(lv, name) == Some(i),
{
    lemma_find_name(lv, name);
    match find_name(lv, name) {
        Some(j) => {
            if j < i {
                assert(lv[j].0 != name);
            } else if j > i {
                assert(lv[i].0 != name);
            }
        },
        None => {
            assert(lv[i].0 != name);
        },
    }
}

fn ensure_from(root: &mut Vec<(String, ConfigNode)>, segments: &Vec<String>, from: usize)
    requires
        from <= segments@.len(),
    ensures
        level(final(root)@) == ensure_level(level(old(root)@), texts(segments@).skip(from as int)),
    decreases segments@.len() - from,
{
    let ghost lv = level(root@);
    let ghost segs = texts(segments@).skip(from as int);
    if from == segments.len() {
        proof {
            assert(segs.len() == 0);
        }
        return;
    }
    proof {
        assert(segs[0] == segments@[from as int]@);
        assert(segs.drop_first() =~= texts(segments@).skip(from + 1));
    }
    let name = &segments[from];
    let last = from + 1 == segments.len();
    match position_of(root, name) {
        Some(i) => {
            if last {
                return;
            }
            proof {
                lemma_find_name(lv, name@);
            }
            let (n, node) = root.remove(i);
            let mut ch = match node {
                ConfigNode::Branch(ch) => {
                    proof {
                        lemma_branch_model(&ch);
                    }
                    ch
                },
                _ => Vec::new(),
            };
            proof {
                assert(level(ch@) =~= branch_children(lv[i as int].1));
            }
            ensure_from(&mut ch, segments, from + 1);
            let ghost new_ch = ch;
            root.insert(i, (n, ConfigNode::Branch(ch)));
            proof {
                lemma_branch_model(&new_ch);
                assert(level(root@) =~= lv.update(
                    i as int,
                    (name@, Node::Branch(ensure_level(branch_children(lv[i as int].1), segs.drop_first()))),
                ));
            }
        },
        None => {
            if last {
                root.push((copy_string(name), ConfigNode::Phantom));
                proof {
                    assert(level(root@) =~= lv.push((name@, Node::Phantom)));
                }
            } else {
                let mut ch: Vec<(String, ConfigNode)> = Vec::new();
                proof {
                    assert(level(ch@) =~= Seq::<(Seq<char>, Node)>::empty());
                }
                ensure_from(&mut ch, segments, from + 1);
                let ghost new_ch = ch;
                root.push((copy_string(name), ConfigNode::Branch(ch)));
                proof {
                    lemma_branch_model(&new_ch);
                    assert(level(root@) =~= lv.push(
                        (name@, Node::Branch(ensure_level(seq![], segs.drop_first()))),
                    ));
                }
            }
        },
    }
}

/// Make the path `segments` exist in the tree.
pub fn ensure_path_exists(root: &mut Vec<(String, ConfigNode)>, segments: &Vec<String>)
    ensures
        level(final(root)@) == ensure_level(level(old(root)@), texts(segments@)),
{
    proof {
        assert(texts(segments@).skip(0) =~= texts(segments@));
    }
    ensure_from(root, segments, 0);
}

/// After a path is made to exist, the node at its end can be found.
pub proof fn lemma_ensure_reaches(lv: Seq<(Seq<char>, Node)>, segs: Seq<Seq<char>>)
    requires
        segs.len() >= 1,
    ensures
        node_at(ensure_level(lv, segs), segs.drop_last(), segs.last()) is Some,
    decreases segs.len(),
{
    let name = segs[0];
    let rest = segs.drop_first();
    let r = ensure_level(lv, segs);
    lemma_find_name(lv, name);
    if rest.len() == 0 {
        assert(segs.drop_last() =~= Seq::<Seq<char>>::empty());
        assert(segs.last() == name);
        match find_name(lv, name) {
            Some(i) => {},
            None => {
                lemma_find_name_at(r, name, lv.len() as int);
            },
        }
    } else {
        lemma_ensure_reaches(branch_children(match find_name(lv, name) {
            Some(i) => lv[i].1,
            None => Node::Phantom,
        }), rest);
        let p = segs.drop_last();
        assert(p[0] == name);
        assert(p.drop_first() =~= rest.drop_last());
        assert(rest.last() == segs.last());
        match find_name(lv, name) {
            Some(i) => {
                lemma_find_name_at(r, name, i);
            },
            None => {
                lemma_find_name_at(r, name, lv.len() as int);
            },
        }
    }
}

// ---------------------------------------------------------------------------
// Sorting every level
// ---------------------------------------------------------------------------

/// `n` with every level below it sorted.
pub open spec fn tidy_node(n: Node) -> Node
    decreases n, 0nat,
{
    match n {
        Node::Branch(ch) => Node::Branch(tidy_level(ch)),
        _ => n,
    }
}

/// `lv` and every level below it sorted, branches first and then by name.
pub open spec fn tidy_level(lv: Seq<(Seq<char>, Node)>) -> Seq<(Seq<char>, Node)>
    decreases lv, 1nat,
{
    sort_entries(tidy_each(lv))
}

/// The entries of `lv`, each with the levels below it sorted.
pub open spec fn tidy_each(lv: Seq<(Seq<char>, Node)>) -> Seq<(Seq<char>, Node)>
    decreases lv, 0nat,
{
    if lv.len() == 0 {
        seq![]
    } else {
        tidy_each(lv.drop_last()).push((lv.last().0, tidy_node(lv.last().1)))
    }
}

fn tidy_node_copy(node: &ConfigNode) -> (out: ConfigNode)
    ensures
        out.model() == tidy_node(node.model()),
    decreases node, 0nat,
{
    match node {
        ConfigNode::Branch(ch) => {
            proof {
                lemma_branch_model(ch);
            }
            let t = tidy_level_copy(ch);
            proof {
                lemma_branch_model(&t);
            }
            ConfigNode::Branch(t)
        },
        ConfigNode::Leaf(v) => ConfigNode::Leaf(copy_json(v)),
        ConfigNode::Phantom => ConfigNode::Phantom,
    }
}

fn tidy_level_copy(children: &Vec<(String, ConfigNode)>) -> (out: Vec<(String, ConfigNode)>)
    ensures
        level(out@) == tidy_level(level(children@)),
    decreases children, 1nat,
{
    let ghost lv = level(children@);
    let mut out: Vec<(String, ConfigNode)> = Vec::new();
    let mut i: usize = 0;
    proof {
        assert(lv.take(0) =~= Seq::<(Seq<char>, Node)>::empty());
        assert(level(out@) =~= tidy_each(lv.take(0)));
    }
    while i < children.len()
        invariant
            i <= children.len(),
            lv == level(children@),
            level(out@) == tidy_each(lv.take(i as int)),
        decreases children.len() - i,
    {
        let node = tidy_node_copy(&children[i].1);
        out.push((copy_string(&children[i].0), node));
        proof {
            assert(lv.take(i + 1).drop_last() =~= lv.take(i as int));
            assert(lv.take(i + 1).last() == (children@[i as int].0@, children@[i as int].1.model()));
            assert(level(out@) =~= tidy_each(lv.take(i + 1)));
        }
        i += 1;
    }
    proof {
        assert(lv.take(children.len() as int) =~= lv);
    }
    sort_branches_first(&mut out);
    out
}

/// Sort every level of the tree, branches first and then by name.
pub fn sort_tree_recursive(children: &mut Vec<(String, ConfigNode)>)
    ensures
        level(final(children)@) == tidy_level(level(old(children)@)),
{
    let t = tidy_level_copy(children);
    *children = t;
}

// ---------------------------------------------------------------------------
// Placeholders for the paths of the dependency index
// ---------------------------------------------------------------------------

/// The keys of a table, in order.
pub open spec fn table_keys(t: Seq<(Seq<char>, Seq<Seq<char>>)>) -> Seq<Seq<char>> {
    t.map_values(|e: (Seq<char>, Seq<Seq<char>>)| e.0)
}

/// All the paths listed in a table, list after list.
pub open spec fn table_values(t: Seq<(Seq<char>, Seq<Seq<char>>)>) -> Seq<Seq<char>>
    decreases t.len(),
{
    if t.len() == 0 {
        seq![]
    } else {
        table_values(t.drop_last()) + t.last().1
    }
}

/// Every path that the index mentions: the keys of both tables, then the
/// paths listed in them.
pub open spec fn index_paths(d: DepsIndex) -> Seq<Seq<char>> {
    let a = table_model(d.dependencies@);
    let b = table_model(d.dependents@);
    table_keys(a) + table_keys(b) + table_values(a) + table_values(b)
}

/// `lv` with each of the dotted paths `ps` made to exist, in order.
pub open spec fn ensure_all(lv: Seq<(Seq<char>, Node)>, ps: Seq<Seq<char>>) -> Seq<(Seq<char>, Node)>
    decreases ps.len(),
{
    if ps.len() == 0 {
        lv
    } else {
        ensure_level(ensure_all(lv, ps.drop_last()), split_dots(ps.last()))
    }
}

fn push_keys(out: &mut Vec<String>, t: &Table)
    ensures
        texts(final(out)@) == texts(old(out)@) + table_keys(table_model(t@)),
{
    let ghost m = table_model(t@);
    let mut i: usize = 0;
    while i < t.len()
        invariant
            i <= t.len(),
            m == table_model(t@),
            out@.len() == old(out)@.len() + i,
            texts(out@) == texts(old(out)@) + table_keys(m).take(i as int),
        decreases t.len() - i,
    {
        let ghost prev = out@;
        out.push(copy_string(&t[i].0));
        proof {
            assert(texts(out@) =~= texts(prev).push(t@[i as int].0@));
            assert(table_keys(m).take(i + 1) =~= table_keys(m).take(i as int).push(t@[i as int].0@));
            assert(table_keys(m)[i as int] == t@[i as int].0@);
            assert(texts(out@) =~= texts(old(out)@) + table_keys(m).take(i + 1));
        }
        i += 1;
    }
    proof {
        assert(table_keys(m).take(t.len() as int) =~= table_keys(m));
    }
}

fn push_values(out: &mut Vec<String>, t: &Table)
    ensures
        texts(final(out)@) == texts(old(out)@) + table_values(table_model(t@)),
{
    let ghost m = table_model(t@);
    let mut i: usize = 0;
    proof {
        assert(m.take(0) =~= Seq::<(Seq<char>, Seq<Seq<char>>)>::empty());
        assert(texts(out@) =~= texts(old(out)@) + table_values(m.take(0)));
    }
    while i < t.len()
        invariant
            i <= t.len(),
            m == table_model(t@),
            texts(out@) == texts(old(out)@) + table_values(m.take(i as int)),
        decreases t.len() - i,
    {
        let list = &t[i].1;
        let ghost before = texts(out@);
        let mut j: usize = 0;
        while j < list.len()
            invariant
                j <= list.len(),
                out@.len() == before.len() + j,
                texts(out@) == before + texts(list@).take(j as int),
            decreases list.len() - j,
        {
            let ghost prev = out@;
            out.push(copy_string(&list[j]));
            proof {
                assert(texts(out@) =~= texts(prev).push(list@[j as int]@));
                assert(texts(list@).take(j + 1) =~= texts(list@).take(j as int).push(list@[j as int]@));
                assert(texts(out@) =~= before + texts(list@).take(j + 1));
            }
            j += 1;
        }
        proof {
            assert(texts(list@).take(list.len() as int) =~= texts(list@));
            assert(m.take(i + 1).drop_last() =~= m.take(i as int));
            assert(m.take(i + 1).last().1 == texts(list@));
            assert(texts(out@) =~= texts(old(out)@) + table_values(m.take(i + 1)));
        }
        i += 1;
    }
    proof {
        assert(m.take(t.len() as int) =~= m);
    }
}

/// The paths of the index, in the order of `index_paths`.
pub fn all_index_paths(deps_index: &DepsIndex) -> (out: Vec<String>)
    ensures
        texts(out@) == index_paths(*deps_index),
{
    let mut out: Vec<String> = Vec::new();
    push_keys(&mut out, &deps_index.dependencies);
    push_keys(&mut out, &deps_index.dependents);
    push_values(&mut out, &deps_index.dependencies);
    push_values(&mut out, &deps_index.dependents);
    proof {
        assert(texts(out@) =~= index_paths(*deps_index));
    }
    out
}

/// Insert placeholder nodes for dependency paths not present in the config
/// tree, then sort every level. Options that cannot be serialized (such as
/// `assertions`) are missing from the values but may take part in the
/// dependency graph; they get a `Phantom` node, the node kind made for
/// exactly this (the viewer marks it with its own icon and explains in the
/// detail pane that the value is not serializable), rather than a null leaf,
/// which would be shown as the value `null`.
pub fn insert_phantom_nodes(root: &mut Vec<(String, ConfigNode)>, deps_index: &DepsIndex)
    ensures
        level(final(root)@) == tidy_level(ensure_all(level(old(root)@), index_paths(*deps_index))),
{
    let paths = all_index_paths(deps_index);
    let ghost ps = texts(paths@);
    let ghost lv0 = level(root@);
    let mut i: usize = 0;
    proof {
        assert(ps.take(0) =~= Seq::<Seq<char>>::empty());
    }
    while i < paths.len()
        invariant
            i <= paths.len(),
            ps == texts(paths@),
            level(root@) == ensure_all(lv0, ps.take(i as int)),
        decreases paths.len() - i,
    {
        let segments = split_path(paths[i].as_str());
        ensure_path_exists(root, &segments);
        proof {
            assert(ps.take(i + 1).drop_last() =~= ps.take(i as int));
            assert(ps.take(i + 1).last() == paths@[i as int]@);
        }
        i += 1;
    }
    proof {
        assert(ps.take(paths.len() as int) =~= ps);
    }
    sort_tree_recursive(root);
}

// ---------------------------------------------------------------------------
// Every path the index mentions can be walked after the placeholders
// ---------------------------------------------------------------------------

/// The path `segs` can be walked down from `lv`: some entry has the first
/// segment's name and, unless that is the last segment, is a branch from
/// which the rest of the path can be walked.
pub open spec fn reaches(lv: Seq<(Seq<char>, Node)>, segs: Seq<Seq<char>>) -> bool
    decreases segs.len(),
{
    segs.len() > 0 && exists|i: int|
        0 <= i < lv.len() && #[trigger] lv[i].0 == segs[0] && (segs.len() == 1 || match lv[i].1 {
            Node::Branch(ch) => reaches(ch, segs.drop_first()),
            _ => false,
        })
}

/// Making one path exist keeps every path that could be walked before.
proof fn lemma_ensure_keeps(lv: Seq<(Seq<char>, Node)>, segs: Seq<Seq<char>>, q: Seq<Seq<char>>)
    requires
        reaches(lv, q),
    ensures
        reaches(ensure_level(lv, segs), q),
    decreases segs.len(), q.len(),
{
    if segs.len() == 0 {
        return;
    }
    let name = segs[0];
    let rest = segs.drop_first();
    let r = ensure_level(lv, segs);
    let k = choose|k: int|
        0 <= k < lv.len() && #[trigger] lv[k].0 == q[0] && (q.len() == 1 || match lv[k].1 {
            Node::Branch(ch) => reaches(ch, q.drop_first()),
            _ => false,
        });
    lemma_find_name(lv, name);
    match find_name(lv, name) {
        Some(i) => {
            if rest.len() == 0 {
                assert(r == lv);
            } else if k != i {
                assert(r[k] == lv[k]);
                assert(r[k].0 == q[0]);
            } else {
                assert(r[k].0 == q[0]);
                if q.len() > 1 {
                    let ch = branch_children(lv[i].1);
                    lemma_ensure_keeps(ch, rest, q.drop_first());
                    assert(r[k].1 == Node::Branch(ensure_level(ch, rest)));
                }
            }
        },
        None => {
            assert(r[k] == lv[k]);
            assert(r[k].0 == q[0]);
        },
    }
}

/// Making a path exist makes it possible to walk it.
proof fn lemma_ensure_walks(lv: Seq<(Seq<char>, Node)>, segs: Seq<Seq<char>>)
    requires
        segs.len() >= 1,
    ensures
        reaches(ensure_level(lv, segs), segs),
    decreases segs.len(),
{
    let name = segs[0];
    let rest = segs.drop_first();
    let r = ensure_level(lv, segs);
    lemma_find_name(lv, name);
    match find_name(lv, name) {
        Some(i) => {
            assert(r[i].0 == segs[0]);
            if rest.len() > 0 {
                lemma_ensure_walks(branch_children(lv[i].1), rest);
                assert(r[i].1 == Node::Branch(ensure_level(branch_children(lv[i].1), rest)));
            }
        },
        None => {
            let j = lv.len() as int;
            assert(r[j].0 == segs[0]);
            if rest.len() > 0 {
                lemma_ensure_walks(seq![], rest);
                assert(r[j].1 == Node::Branch(ensure_level(seq![], rest)));
            }
        },
    }
}

/// After each path of `ps` is made to exist, every one of them can be walked.
proof fn lemma_ensure_all_walks(lv: Seq<(Seq<char>, Node)>, ps: Seq<Seq<char>>)
    ensures
        forall|k: int| 0 <= k < ps.len() ==> reaches(ensure_all(lv, ps), #[trigger] split_dots(ps[k])),
    decreases ps.len(),
{
    if ps.len() > 0 {
        let prev = ensure_all(lv, ps.drop_last());
        lemma_ensure_all_walks(lv, ps.drop_last());
        lemma_split_dots_len(ps.last());
        lemma_ensure_walks(prev, split_dots(ps.last()));
        assert forall|k: int| 0 <= k < ps.len() implies reaches(ensure_all(lv, ps), #[trigger] split_dots(ps[k])) by {
            if k < ps.len() - 1 {
                assert(ps.drop_last()[k] == ps[k]);
                lemma_ensure_keeps(prev, split_dots(ps.last()), split_dots(ps[k]));
            }
        }
    }
}

/// Sorting every level keeps every path that could be walked.
proof fn lemma_tidy_keeps(lv: Seq<(Seq<char>, Node)>, q: Seq<Seq<char>>)
    requires
        reaches(lv, q),
    ensures
        reaches(tidy_level(lv), q),
    decreases q.len(),
{
    let t = tidy_each(lv);
    lemma_tidy_each_keeps(lv, q);
    let k = choose|k: int|
        0 <= k < t.len() && #[trigger] t[k].0 == q[0] && (q.len() == 1 || match t[k].1 {
            Node::Branch(ch) => reaches(ch, q.drop_first()),
            _ => false,
        });
    lemma_sort_entries(t);
    let s = sort_entries(t);
    t.to_multiset_ensures();
    s.to_multiset_ensures();
    assert(t.contains(t[k]));
    assert(t.to_multiset().count(t[k]) > 0);
    assert(s.to_multiset().count(t[k]) > 0);
    assert(s.contains(t[k]));
    let j = choose|j: int| 0 <= j < s.len() && s[j] == t[k];
    assert(s[j].0 == q[0]);
}

/// Sorting the levels below each entry keeps every path that could be walked.
proof fn lemma_tidy_each_keeps(lv: Seq<(Seq<char>, Node)>, q: Seq<Seq<char>>)
    requires
        reaches(lv, q),
    ensures
        reaches(tidy_each(lv), q),
    decreases q.len(), lv.len(),
{
    lemma_tidy_each_shape(lv);
    let t = tidy_each(lv);
    let k = choose|k: int|
        0 <= k < lv.len() && #[trigger] lv[k].0 == q[0] && (q.len() == 1 || match lv[k].1 {
            Node::Branch(ch) => reaches(ch, q.drop_first()),
            _ => false,
        });
    assert(t[k].0 == q[0]);
    if q.len() > 1 {
        match lv[k].1 {
            Node::Branch(ch) => {
                lemma_tidy_keeps(ch, q.drop_first());
                assert(t[k].1 == Node::Branch(tidy_level(ch)));
            },
            _ => {},
        }
    }
}

/// Each entry keeps its name and place, its node with the levels below it sorted.
proof fn lemma_tidy_each_shape(lv: Seq<(Seq<char>, Node)>)
    ensures
        tidy_each(lv).len() == lv.len(),
        forall|k: int| 0 <= k < lv.len() ==> #[trigger] tidy_each(lv)[k] == (lv[k].0, tidy_node(lv[k].1)),
    decreases lv.len(),
{
    if lv.len() > 0 {
        lemma_tidy_each_shape(lv.drop_last());
        assert forall|k: int| 0 <= k < lv.len() implies #[trigger] tidy_each(lv)[k] == (lv[k].0, tidy_node(lv[k].1)) by {
            if k < lv.len() - 1 {
                assert(lv.drop_last()[k] == lv[k]);
            }
        }
    }
}

/// Once the placeholders are in (as `insert_phantom_nodes` leaves the
/// tree), every path that the dependency index mentions can be walked down
/// the tree, one named entry per segment.
pub proof fn lemma_index_paths_walk(lv: Seq<(Seq<char>, Node)>, d: DepsIndex)
    ensures
        forall|k: int|
            0 <= k < index_paths(d).len() ==> reaches(
                tidy_level(ensure_all(lv, index_paths(d))),
                #[trigger] split_dots(index_paths(d)[k]),
            ),
{
    let ps = index_paths(d);
    lemma_ensure_all_walks(lv, ps);
    assert forall|k: int| 0 <= k < ps.len() implies reaches(tidy_level(ensure_all(lv, ps)), #[trigger] split_dots(ps[k])) by {
        lemma_tidy_keeps(ensure_all(lv, ps), split_dots(ps[k]));
    }
}

} // verus!
