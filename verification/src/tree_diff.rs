use vstd::prelude::*;

use crate::assoc::{assoc_map, keys_distinct, lemma_assoc_map, lemma_assoc_update};
use crate::deps::{deps_match, list_contains, table_get, table_model, DepsIndex};
use crate::json::{copy_json, entries_model, Json, JsonValue};
use crate::paths::{copy_strings, join_dots, join_path, texts};
use crate::text::{chars_of, copy_string, same_text};
use crate::tree::{lemma_sort_entries, find_name, lemma_branch_model, lemma_find_name, level, position_of, sort_branches_first, sort_entries, ConfigNode, Node};
use crate::json::json_equal;

verus! {

/// How a path differs between the old and the new configuration.
#[derive(PartialEq, Eq, Structural, Clone, Copy, Debug)]
pub enum DiffTag {
    Added,
    Removed,
    Modified,
    Unchanged,
}

/// Which nodes the diff tree shows.
#[derive(PartialEq, Eq, Structural, Clone, Copy, Debug)]
pub enum DiffFilter {
    /// Every node.
    All,
    /// Nodes whose value or dependencies changed.
    Changed,
    /// Nodes whose value changed.
    ValueChanged,
}

// ---------------------------------------------------------------------------
// Keyed lists
// ---------------------------------------------------------------------------

/// The model of a list of tags.
pub open spec fn tag_list(m: Seq<(String, DiffTag)>) -> Seq<(Seq<char>, DiffTag)> {
    Seq::new(m.len(), |i: int| (m[i].0@, m[i].1))
}

/// The map of a list of tags.
pub open spec fn tag_map(m: Seq<(String, DiffTag)>) -> Map<Seq<char>, DiffTag> {
    assoc_map(tag_list(m))
}

/// The map of a list of values.
pub open spec fn value_map(m: Seq<(String, JsonValue)>) -> Map<Seq<char>, Json> {
    assoc_map(entries_model(m))
}

/// Sets the tag of `k` to `v`.
pub fn set_tag(m: &mut Vec<(String, DiffTag)>, k: String, v: DiffTag)
    requires
        keys_distinct(tag_list(old(m)@)),
    ensures
        keys_distinct(tag_list(final(m)@)),
        tag_map(final(m)@) == tag_map(old(m)@).insert(k@, v),
{
    let ghost l = tag_list(m@);
    let mut i: usize = 0;
    while i < m.len()
        invariant
            i <= m.len(),
            l == tag_list(m@),
            m@ == old(m)@,
            keys_distinct(l),
            forall|j: int| 0 <= j < i ==> l[j].0 != k@,
        decreases m.len() - i,
    {
        if same_text(&m[i].0, &k) {
            let name = copy_string(&m[i].0);
            m.set(i, (name, v));
            proof {
                assert(tag_list(m@) =~= l.update(i as int, (l[i as int].0, v)));
                assert(l[i as int].0 == k@);
                lemma_assoc_update(l, i as int, v);
            }
            return;
        }
        i += 1;
    }
    m.push((k, v));
    proof {
        assert(tag_list(m@) =~= l.push((k@, v)));
        assert(tag_list(m@).drop_last() =~= l);
        let u = tag_list(m@);
        assert forall|a: int, b: int| 0 <= a < b < u.len() implies (#[trigger] u[a]).0 != (#[trigger] u[b]).0 by {
            if b < l.len() {
                assert(u[a] == l[a] && u[b] == l[b]);
            } else {
                assert(u[a] == l[a]);
            }
        }
    }
}

/// Sets the value of `k` to `v`.
pub fn set_value(m: &mut Vec<(String, JsonValue)>, k: String, v: JsonValue)
    requires
        keys_distinct(entries_model(old(m)@)),
    ensures
        keys_distinct(entries_model(final(m)@)),
        value_map(final(m)@) == value_map(old(m)@).insert(k@, v.model()),
{
    let ghost l = entries_model(m@);
    let ghost vm = v.model();
    let mut i: usize = 0;
    while i < m.len()
        invariant
            i <= m.len(),
            l == entries_model(m@),
            m@ == old(m)@,
            keys_distinct(l),
            vm == v.model(),
            forall|j: int| 0 <= j < i ==> l[j].0 != k@,
        decreases m.len() - i,
    {
        if same_text(&m[i].0, &k) {
            let name = copy_string(&m[i].0);
            m.set(i, (name, v));
            proof {
                assert(entries_model(m@) =~= l.update(i as int, (l[i as int].0, vm)));
                assert(l[i as int].0 == k@);
                lemma_assoc_update(l, i as int, vm);
            }
            return;
        }
        i += 1;
    }
    m.push((k, v));
    proof {
        assert(entries_model(m@) =~= l.push((k@, vm)));
        assert(entries_model(m@).drop_last() =~= l);
        let u = entries_model(m@);
        assert forall|a: int, b: int| 0 <= a < b < u.len() implies (#[trigger] u[a]).0 != (#[trigger] u[b]).0 by {
            if b < l.len() {
                assert(u[a] == l[a] && u[b] == l[b]);
            } else {
                assert(u[a] == l[a]);
            }
        }
    }
}

/// The tag of `k`, if it has one.
pub fn get_tag(m: &Vec<(String, DiffTag)>, k: &String) -> (r: Option<DiffTag>)
    requires
        keys_distinct(tag_list(m@)),
    ensures
        r == (if tag_map(m@).contains_key(k@) {
            Some(tag_map(m@)[k@])
        } else {
            None
        }),
{
    let ghost l = tag_list(m@);
    proof {
        lemma_assoc_map(l);
    }
    let mut i: usize = 0;
    while i < m.len()
        invariant
            i <= m.len(),
            l == tag_list(m@),
            keys_distinct(l),
            forall|j: int| 0 <= j < i ==> l[j].0 != k@,
        decreases m.len() - i,
    {
        if same_text(&m[i].0, k) {
            proof {
                lemma_assoc_map(l);
                assert(l[i as int].0 == k@);
            }
            return Some(m[i].1);
        }
        i += 1;
    }
    proof {
        lemma_assoc_map(l);
        if tag_map(m@).contains_key(k@) {
            let j = choose|j: int| 0 <= j < l.len() && l[j].0 == k@;
        }
    }
    None
}

/// `p` is a prefix of `s`.
pub open spec fn has_prefix(s: Seq<char>, p: Seq<char>) -> bool {
    p.len() <= s.len() && s.take(p.len() as int) == p
}

/// Whether `s` begins with `p`.
pub fn starts_with(s: &String, p: &String) -> (r: bool)
    ensures
        r == has_prefix(s@, p@),
{
    let a = chars_of(s.as_str());
    let b = chars_of(p.as_str());
    if b.len() > a.len() {
        return false;
    }
    let mut i: usize = 0;
    while i < b.len()
        invariant
            i <= b.len() <= a.len(),
            a@ == s@,
            b@ == p@,
            forall|j: int| 0 <= j < i ==> a@[j] == b@[j],
        decreases b.len() - i,
    {
        if a[i] != b[i] {
            proof {
                assert(s@.take(p@.len() as int)[i as int] != p@[i as int]);
            }
            return false;
        }
        i += 1;
    }
    proof {
        assert(s@.take(p@.len() as int) =~= p@);
    }
    true
}

/// Some path other than `p` that begins with `p` has a tag other than
/// unchanged.
pub open spec fn changed_under(tags: Map<Seq<char>, DiffTag>, p: Seq<char>) -> bool {
    exists|k: Seq<char>|
        #[trigger] tags.contains_key(k) && has_prefix(k, p) && k != p && tags[k] != DiffTag::Unchanged
}

/// Whether some path other than `p` that begins with `p` has a tag other
/// than unchanged.
pub fn any_changed_under(tags: &Vec<(String, DiffTag)>, p: &String, strict: bool) -> (r: bool)
    requires
        keys_distinct(tag_list(tags@)),
    ensures
        r == exists|k: Seq<char>|
            #[trigger] tag_map(tags@).contains_key(k) && has_prefix(k, p@) && (strict ==> k != p@)
                && tag_map(tags@)[k] != DiffTag::Unchanged,
{
    let ghost l = tag_list(tags@);
    proof {
        lemma_assoc_map(l);
    }
    let mut i: usize = 0;
    while i < tags.len()
        invariant
            i <= tags.len(),
            l == tag_list(tags@),
            keys_distinct(l),
            forall|j: int|
                0 <= j < i ==> !(has_prefix(#[trigger] l[j].0, p@) && (strict ==> l[j].0 != p@) && l[j].1
                    != DiffTag::Unchanged),
        decreases tags.len() - i,
    {
        let hit = starts_with(&tags[i].0, p) && (!strict || !same_text(&tags[i].0, p)) && tags[i].1
            != DiffTag::Unchanged;
        if hit {
            proof {
                lemma_assoc_map(l);
                assert(tag_map(tags@).contains_key(l[i as int].0));
            }
            return true;
        }
        i += 1;
    }
    proof {
        lemma_assoc_map(l);
        if exists|k: Seq<char>|
            #[trigger] tag_map(tags@).contains_key(k) && has_prefix(k, p@) && (strict ==> k != p@)
                && tag_map(tags@)[k] != DiffTag::Unchanged {
            let k = choose|k: Seq<char>|
                #[trigger] tag_map(tags@).contains_key(k) && has_prefix(k, p@) && (strict ==> k != p@)
                    && tag_map(tags@)[k] != DiffTag::Unchanged;
            let j = choose|j: int| 0 <= j < l.len() && l[j].0 == k;
            assert(l[j].1 == tag_map(tags@)[k]);
        }
    }
    false
}

// ---------------------------------------------------------------------------
// The diff context
// ---------------------------------------------------------------------------

/// What the tree viewer knows of a diff: the tag of every path (counting
/// changed dependencies), the tags counting values alone, the old and new
/// leaf values by path, both dependency indices, and the current filter.
pub struct DiffContext {
    pub tags: Vec<(String, DiffTag)>,
    pub value_tags: Vec<(String, DiffTag)>,
    pub old_values: Vec<(String, JsonValue)>,
    pub new_values: Vec<(String, JsonValue)>,
    pub old_deps: DepsIndex,
    pub new_deps: DepsIndex,
    pub filter: DiffFilter,
}

impl DiffContext {
    /// Every keyed list has distinct keys.
    pub open spec fn wf(&self) -> bool {
        &&& keys_distinct(tag_list(self.tags@))
        &&& keys_distinct(tag_list(self.value_tags@))
        &&& keys_distinct(entries_model(self.old_values@))
        &&& keys_distinct(entries_model(self.new_values@))
    }
}

/// The tag a map gives a path, unchanged when it gives none.
pub open spec fn tag_or_unchanged(tags: Map<Seq<char>, DiffTag>, k: Seq<char>) -> DiffTag {
    if tags.contains_key(k) {
        tags[k]
    } else {
        DiffTag::Unchanged
    }
}

/// The tag shown for a node: its own, except that an unchanged branch with
/// a changed descendant shows as modified.
pub open spec fn shown_tag(tags: Map<Seq<char>, DiffTag>, dot: Seq<char>, n: Node) -> DiffTag {
    let tag = tag_or_unchanged(tags, dot);
    match n {
        Node::Branch(_) => if tag == DiffTag::Unchanged {
            if exists|k: Seq<char>|
                #[trigger] tags.contains_key(k) && has_prefix(k, dot + "."@) && tags[k] != DiffTag::Unchanged {
                DiffTag::Modified
            } else {
                DiffTag::Unchanged
            }
        } else {
            tag
        },
        _ => tag,
    }
}

/// The tag shown for a node is the node's own tag whenever that is not
/// unchanged, for a branch too; a node without a tag of its own shows as
/// unchanged, except that a branch with a changed path below it (one that
/// begins with the branch's path and a dot) shows as modified.
pub proof fn lemma_shown_tag_prefers_own(tags: Map<Seq<char>, DiffTag>, dot: Seq<char>, n: Node)
    ensures
        tags.contains_key(dot) && tags[dot] != DiffTag::Unchanged ==> shown_tag(tags, dot, n) == tags[dot],
        !(n is Branch) ==> shown_tag(tags, dot, n) == (if tags.contains_key(dot) {
            tags[dot]
        } else {
            DiffTag::Unchanged
        }),
        n is Branch && !(tags.contains_key(dot) && tags[dot] != DiffTag::Unchanged) ==> (shown_tag(tags, dot, n)
            == DiffTag::Modified <==> exists|k: Seq<char>|
            #[trigger] tags.contains_key(k) && has_prefix(k, dot + "."@) && tags[k] != DiffTag::Unchanged),
        n is Branch && !(tags.contains_key(dot) && tags[dot] != DiffTag::Unchanged) ==> (shown_tag(tags, dot, n)
            == DiffTag::Modified || shown_tag(tags, dot, n) == DiffTag::Unchanged),
{
}

/// Get the effective diff tag for a node, considering descendants for branches.
pub fn get_diff_tag(diff_ctx: &DiffContext, path_prefix: &Vec<String>, name: &String, node: &ConfigNode) -> (r: DiffTag)
    requires
        diff_ctx.wf(),
    ensures
        r == shown_tag(tag_map(diff_ctx.tags@), join_dots(texts(path_prefix@).push(name@)), node.model()),
{
    let mut full = copy_strings(path_prefix);
    full.push(copy_string(name));
    proof {
        assert(texts(full@) =~= texts(path_prefix@).push(name@));
    }
    let dot = join_path(&full);
    let tag = match get_tag(&diff_ctx.tags, &dot) {
        Some(t) => t,
        None => DiffTag::Unchanged,
    };
    match node {
        ConfigNode::Branch(_) => {
            if tag == DiffTag::Unchanged {
                let mut prefix_dot = copy_string(&dot);
                prefix_dot.append(".");
                if any_changed_under(&diff_ctx.tags, &prefix_dot, false) {
                    DiffTag::Modified
                } else {
                    DiffTag::Unchanged
                }
            } else {
                tag
            }
        },
        _ => tag,
    }
}

// ---------------------------------------------------------------------------
// Keeping only what changed
// ---------------------------------------------------------------------------

/// The nodes of `lv` that changed, with their ancestors: a branch stays when
/// something below it stays; any other node stays when its tag is not
/// unchanged.
pub open spec fn filter_level(lv: Seq<(Seq<char>, Node)>, tags: Map<Seq<char>, DiffTag>, prefix: Seq<Seq<char>>) -> Seq<(Seq<char>, Node)>
    decreases lv, 0nat,
{
    if lv.len() == 0 {
        seq![]
    } else {
        let rest = filter_level(lv.drop_last(), tags, prefix);
        let name = lv.last().0;
        let path = prefix.push(name);
        match lv.last().1 {
            Node::Branch(ch) => {
                let f = filter_level(ch, tags, path);
                if f.len() > 0 {
                    rest.push((name, Node::Branch(f)))
                } else {
                    rest
                }
            },
            n => if tag_or_unchanged(tags, join_dots(path)) != DiffTag::Unchanged {
                rest.push((name, n))
            } else {
                rest
            },
        }
    }
}

/// Filtering a filtered tree changes nothing: what is left after one pass
/// is all changed or leads to something changed.
pub proof fn lemma_filter_idempotent(lv: Seq<(Seq<char>, Node)>, tags: Map<Seq<char>, DiffTag>, prefix: Seq<Seq<char>>)
    ensures
        filter_level(filter_level(lv, tags, prefix), tags, prefix) == filter_level(lv, tags, prefix),
    decreases lv,
{
    if lv.len() > 0 {
        let rest = filter_level(lv.drop_last(), tags, prefix);
        lemma_filter_idempotent(lv.drop_last(), tags, prefix);
        let name = lv.last().0;
        let path = prefix.push(name);
        let f = filter_level(lv, tags, prefix);
        match lv.last().1 {
            Node::Branch(ch) => {
                let fc = filter_level(ch, tags, path);
                lemma_filter_idempotent(ch, tags, path);
                if fc.len() > 0 {
                    assert(f == rest.push((name, Node::Branch(fc))));
                    assert(f.drop_last() =~= rest);
                } else {
                    assert(f == rest);
                }
            },
            n => {
                if tag_or_unchanged(tags, join_dots(path)) != DiffTag::Unchanged {
                    assert(f == rest.push((name, n)));
                    assert(f.drop_last() =~= rest);
                } else {
                    assert(f == rest);
                }
            },
        }
    }
}

/// A copy of a node.
pub fn clone_node(node: &ConfigNode) -> (out: ConfigNode)
    ensures
        out.model() == node.model(),
    decreases node, 0nat,
{
    match node {
        ConfigNode::Branch(ch) => {
            proof {
                lemma_branch_model(ch);
            }
            let c = clone_level(ch);
            proof {
                lemma_branch_model(&c);
            }
            ConfigNode::Branch(c)
        },
        ConfigNode::Leaf(v) => ConfigNode::Leaf(copy_json(v)),
        ConfigNode::Phantom => ConfigNode::Phantom,
    }
}

/// A copy of a level.
pub fn clone_level(children: &Vec<(String, ConfigNode)>) -> (out: Vec<(String, ConfigNode)>)
    ensures
        level(out@) == level(children@),
    decreases children, 0nat,
{
    let mut out: Vec<(String, ConfigNode)> = Vec::new();
    let mut i: usize = 0;
    while i < children.len()
        invariant
            i <= children.len(),
            out@.len() == i,
            level(out@) == level(children@).take(i as int),
        decreases children.len() - i,
    {
        let n = clone_node(&children[i].1);
        let ghost prev = out@;
        out.push((copy_string(&children[i].0), n));
        proof {
            assert(level(out@) =~= level(prev).push((children@[i as int].0@, children@[i as int].1.model())));
            assert(level(out@) =~= level(children@).take(i + 1));
        }
        i += 1;
    }
    proof {
        assert(level(children@).take(children.len() as int) =~= level(children@));
    }
    out
}

/// Filter out unchanged nodes, keeping only changed nodes and their ancestors.
pub fn filter_unchanged_tree(root: &Vec<(String, ConfigNode)>, tags: &Vec<(String, DiffTag)>, prefix: &Vec<String>) -> (out: Vec<(String, ConfigNode)>)
    requires
        keys_distinct(tag_list(tags@)),
    ensures
        level(out@) == filter_level(level(root@), tag_map(tags@), texts(prefix@)),
    decreases root, 0nat,
{
    let ghost lv = level(root@);
    let ghost tm = tag_map(tags@);
    let mut out: Vec<(String, ConfigNode)> = Vec::new();
    let mut i: usize = 0;
    proof {
        assert(lv.take(0) =~= Seq::<(Seq<char>, Node)>::empty());
    }
    while i < root.len()
        invariant
            i <= root.len(),
            lv == level(root@),
            tm == tag_map(tags@),
            keys_distinct(tag_list(tags@)),
            level(out@) == filter_level(lv.take(i as int), tm, texts(prefix@)),
        decreases root.len() - i,
    {
        let name = &root[i].0;
        let node = &root[i].1;
        let mut path = copy_strings(prefix);
        path.push(copy_string(name));
        proof {
            assert(texts(path@) =~= texts(prefix@).push(name@));
            assert(lv.take(i + 1).drop_last() =~= lv.take(i as int));
            assert(lv.take(i + 1).last() == (name@, node.model()));
        }
        match node {
            ConfigNode::Branch(children) => {
                proof {
                    lemma_branch_model(children);
                }
                let filtered = filter_unchanged_tree(children, tags, &path);
                if filtered.len() > 0 {
                    let ghost f = filtered;
                    out.push((copy_string(name), ConfigNode::Branch(filtered)));
                    proof {
                        lemma_branch_model(&f);
                        assert(level(out@) =~= filter_level(lv.take(i + 1), tm, texts(prefix@)));
                    }
                }
            },
            _ => {
                let dot = join_path(&path);
                let tag = match get_tag(tags, &dot) {
                    Some(t) => t,
                    None => DiffTag::Unchanged,
                };
                if tag != DiffTag::Unchanged {
                    out.push((copy_string(name), clone_node(node)));
                    proof {
                        assert(level(out@) =~= filter_level(lv.take(i + 1), tm, texts(prefix@)));
                    }
                }
            },
        }
        i += 1;
    }
    proof {
        assert(lv.take(root.len() as int) =~= lv);
    }
    out
}

// ---------------------------------------------------------------------------
// The names of two levels
// ---------------------------------------------------------------------------

/// The names of a level, in order.
pub open spec fn names_of(lv: Seq<(Seq<char>, Node)>) -> Seq<Seq<char>> {
    lv.map_values(|e: (Seq<char>, Node)| e.0)
}

/// `s` with every repeat of an earlier element left out.
pub open spec fn dedup(s: Seq<Seq<char>>) -> Seq<Seq<char>>
    decreases s.len(),
{
    if s.len() == 0 {
        seq![]
    } else {
        let d = dedup(s.drop_last());
        if d.contains(s.last()) {
            d
        } else {
            d.push(s.last())
        }
    }
}

/// The names of the old level, then those of the new level that the old
/// one lacks, each once.
pub open spec fn all_names(o: Seq<(Seq<char>, Node)>, n: Seq<(Seq<char>, Node)>) -> Seq<Seq<char>> {
    dedup(names_of(o) + names_of(n))
}

/// The node of the first entry named `name`.
pub open spec fn lookup_child(lv: Seq<(Seq<char>, Node)>, name: Seq<char>) -> Option<Node> {
    match find_name(lv, name) {
        Some(i) => Some(lv[i].1),
        None => None,
    }
}

/// Appends to `out` the names of `lv` that it lacks.
fn push_missing_names(out: &mut Vec<String>, lv: &Vec<(String, ConfigNode)>, Ghost(before): Ghost<Seq<Seq<char>>>)
    requires
        texts(old(out)@) == dedup(before),
    ensures
        texts(final(out)@) == dedup(before + names_of(level(lv@))),
{
    let ghost names = names_of(level(lv@));
    let mut i: usize = 0;
    proof {
        assert(before + names.take(0) =~= before);
    }
    while i < lv.len()
        invariant
            i <= lv.len(),
            names == names_of(level(lv@)),
            texts(out@) == dedup(before + names.take(i as int)),
        decreases lv.len() - i,
    {
        let name = &lv[i].0;
        proof {
            assert(names[i as int] == name@);
            let s1 = before + names.take(i + 1);
            assert(s1.drop_last() =~= before + names.take(i as int));
            assert(s1.last() == name@);
        }
        if !list_contains(out, name) {
            let ghost prev = out@;
            out.push(copy_string(name));
            proof {
                assert(texts(out@) =~= texts(prev).push(name@));
            }
        }
        i += 1;
    }
    proof {
        assert(names.take(lv.len() as int) =~= names);
    }
}

/// The union of the names of both levels, the old ones first.
pub fn union_names(old_children: &Vec<(String, ConfigNode)>, new_children: &Vec<(String, ConfigNode)>) -> (out: Vec<String>)
    ensures
        texts(out@) == all_names(level(old_children@), level(new_children@)),
{
    let mut out: Vec<String> = Vec::new();
    proof {
        assert(texts(out@) =~= dedup(seq![]));
    }
    push_missing_names(&mut out, old_children, Ghost(Seq::empty()));
    proof {
        assert(Seq::<Seq<char>>::empty() + names_of(level(old_children@)) =~= names_of(level(old_children@)));
    }
    push_missing_names(&mut out, new_children, Ghost(names_of(level(old_children@))));
    out
}

// ---------------------------------------------------------------------------
// The union of two trees
// ---------------------------------------------------------------------------

/// The union of two levels: every name of either, sorted. A name in both
/// is a branch of the union of both branches when both are branches; else
/// the new leaf, the new branch, or (when the new node is a placeholder)
/// the old node. A name in one level only keeps its node.
pub open spec fn union_level(o: Seq<(Seq<char>, Node)>, n: Seq<(Seq<char>, Node)>) -> Seq<(Seq<char>, Node)>
    decreases o, n, 1nat, 0nat,
{
    sort_entries(union_entries(o, n, all_names(o, n)))
}

/// The union entries for `names`, in order.
pub open spec fn union_entries(o: Seq<(Seq<char>, Node)>, n: Seq<(Seq<char>, Node)>, names: Seq<Seq<char>>) -> Seq<(Seq<char>, Node)>
    decreases o, n, 0nat, names.len(),
{
    if names.len() == 0 {
        seq![]
    } else {
        let rest = union_entries(o, n, names.drop_last());
        let name = names.last();
        proof {
            lemma_find_name(o, name);
            lemma_find_name(n, name);
        }
        let node = match (find_name(o, name), find_name(n, name)) {
            (Some(i), Some(j)) => match (o[i].1, n[j].1) {
                (Node::Branch(oc), Node::Branch(nc)) => Node::Branch(union_level(oc, nc)),
                (_, Node::Phantom) => o[i].1,
                (_, nn) => nn,
            },
            (Some(i), None) => o[i].1,
            (None, Some(j)) => n[j].1,
            (None, None) => Node::Phantom,
        };
        rest.push((name, node))
    }
}

/// Build a union tree from two sorted child lists.
pub fn build_union_tree(old_root: &Vec<(String, ConfigNode)>, new_root: &Vec<(String, ConfigNode)>) -> (out: Vec<(String, ConfigNode)>)
    ensures
        level(out@) == union_level(level(old_root@), level(new_root@)),
    decreases old_root, new_root,
{
    let ghost o = level(old_root@);
    let ghost n = level(new_root@);
    let names = union_names(old_root, new_root);
    let ghost all = texts(names@);
    let mut result: Vec<(String, ConfigNode)> = Vec::new();
    let mut k: usize = 0;
    proof {
        assert(all.take(0) =~= Seq::<Seq<char>>::empty());
    }
    while k < names.len()
        invariant
            k <= names.len(),
            o == level(old_root@),
            n == level(new_root@),
            all == texts(names@),
            all == all_names(o, n),
            level(result@) == union_entries(o, n, all.take(k as int)),
        decreases names.len() - k,
    {
        let name = &names[k];
        proof {
            assert(all.take(k + 1).drop_last() =~= all.take(k as int));
            assert(all.take(k + 1).last() == name@);
            lemma_find_name(o, name@);
            lemma_find_name(n, name@);
        }
        let oi = position_of(old_root, name);
        let ni = position_of(new_root, name);
        let node = match (oi, ni) {
            (Some(i), Some(j)) => {
                proof {
                    assert(o[i as int].1 == old_root@[i as int].1.model());
                    assert(n[j as int].1 == new_root@[j as int].1.model());
                }
                match (&old_root[i].1, &new_root[j].1) {
                    (ConfigNode::Branch(oc), ConfigNode::Branch(nc)) => {
                        proof {
                            lemma_branch_model(oc);
                            lemma_branch_model(nc);
                        }
                        let u = build_union_tree(oc, nc);
                        proof {
                            lemma_branch_model(&u);
                        }
                        ConfigNode::Branch(u)
                    },
                    (_, ConfigNode::Phantom) => clone_node(&old_root[i].1),
                    (_, nn) => clone_node(nn),
                }
            },
            (Some(i), None) => {
                proof {
                    assert(o[i as int].1 == old_root@[i as int].1.model());
                }
                clone_node(&old_root[i].1)
            },
            (None, Some(j)) => {
                proof {
                    assert(n[j as int].1 == new_root@[j as int].1.model());
                }
                clone_node(&new_root[j].1)
            },
            (None, None) => ConfigNode::Phantom,
        };
        let ghost prev = result@;
        result.push((copy_string(name), node));
        proof {
            assert(level(result@) =~= level(prev).push((name@, node.model())));
        }
        k += 1;
    }
    proof {
        assert(all.take(names.len() as int) =~= all);
    }
    sort_branches_first(&mut result);
    result
}

// ---------------------------------------------------------------------------
// Tags that count values alone
// ---------------------------------------------------------------------------

/// `tags` with every node below `n` (at `path`) given `tag`, each node
/// before the nodes below it.
pub open spec fn tag_below(n: Node, path: Seq<Seq<char>>, tag: DiffTag, tags: Map<Seq<char>, DiffTag>) -> Map<Seq<char>, DiffTag>
    decreases n, 0nat,
{
    match n {
        Node::Branch(ch) => tag_children(ch, path, tag, tags),
        _ => tags,
    }
}

pub open spec fn tag_children(ch: Seq<(Seq<char>, Node)>, path: Seq<Seq<char>>, tag: DiffTag, tags: Map<Seq<char>, DiffTag>) -> Map<Seq<char>, DiffTag>
    decreases ch, 0nat,
{
    if ch.len() == 0 {
        tags
    } else {
        let t = tag_children(ch.drop_last(), path, tag, tags);
        let cp = path.push(ch.last().0);
        tag_below(ch.last().1, cp, tag, t.insert(join_dots(cp), tag))
    }
}

fn tag_all_descendants_simple(node: &ConfigNode, path: &Vec<String>, tag: DiffTag, tags: &mut Vec<(String, DiffTag)>)
    requires
        keys_distinct(tag_list(old(tags)@)),
    ensures
        keys_distinct(tag_list(final(tags)@)),
        tag_map(final(tags)@) == tag_below(node.model(), texts(path@), tag, tag_map(old(tags)@)),
    decreases node, 0nat,
{
    match node {
        ConfigNode::Branch(children) => {
            proof {
                lemma_branch_model(children);
            }
            tag_children_simple(children, path, tag, tags);
        },
        _ => {},
    }
}

fn tag_children_simple(children: &Vec<(String, ConfigNode)>, path: &Vec<String>, tag: DiffTag, tags: &mut Vec<(String, DiffTag)>)
    requires
        keys_distinct(tag_list(old(tags)@)),
    ensures
        keys_distinct(tag_list(final(tags)@)),
        tag_map(final(tags)@) == tag_children(level(children@), texts(path@), tag, tag_map(old(tags)@)),
    decreases children, 0nat,
{
    let ghost lv = level(children@);
    let ghost t0 = tag_map(tags@);
    let mut i: usize = 0;
    proof {
        assert(lv.take(0) =~= Seq::<(Seq<char>, Node)>::empty());
    }
    while i < children.len()
        invariant
            i <= children.len(),
            lv == level(children@),
            keys_distinct(tag_list(tags@)),
            tag_map(tags@) == tag_children(lv.take(i as int), texts(path@), tag, t0),
        decreases children.len() - i,
    {
        let mut child_path = copy_strings(path);
        child_path.push(copy_string(&children[i].0));
        proof {
            assert(texts(child_path@) =~= texts(path@).push(children@[i as int].0@));
            assert(lv.take(i + 1).drop_last() =~= lv.take(i as int));
            assert(lv.take(i + 1).last() == (children@[i as int].0@, children@[i as int].1.model()));
        }
        let dot = join_path(&child_path);
        set_tag(tags, dot, tag);
        tag_all_descendants_simple(&children[i].1, &child_path, tag, tags);
        i += 1;
    }
    proof {
        assert(lv.take(children.len() as int) =~= lv);
    }
}

/// The tags of a walk over two levels that compares values alone.
pub open spec fn value_walk(o: Seq<(Seq<char>, Node)>, n: Seq<(Seq<char>, Node)>, prefix: Seq<Seq<char>>, tags: Map<Seq<char>, DiffTag>) -> Map<Seq<char>, DiffTag>
    decreases o, n, 1nat, 0nat,
{
    value_walk_names(o, n, prefix, all_names(o, n), tags)
}

/// The tags after walking `names`, in order: a name only in the new level
/// is added with everything below it, one only in the old level removed
/// with everything below it; two branches are walked and then tagged
/// modified when some other path that begins with theirs is not unchanged;
/// two leaves are unchanged when their values are equal; two placeholders
/// are unchanged; any other pair is modified.
pub open spec fn value_walk_names(o: Seq<(Seq<char>, Node)>, n: Seq<(Seq<char>, Node)>, prefix: Seq<Seq<char>>, names: Seq<Seq<char>>, tags: Map<Seq<char>, DiffTag>) -> Map<Seq<char>, DiffTag>
    decreases o, n, 0nat, names.len(),
{
    if names.len() == 0 {
        tags
    } else {
        let t0 = value_walk_names(o, n, prefix, names.drop_last(), tags);
        let name = names.last();
        let path = prefix.push(name);
        let dot = join_dots(path);
        proof {
            lemma_find_name(o, name);
            lemma_find_name(n, name);
        }
        match (find_name(o, name), find_name(n, name)) {
            (None, Some(j)) => tag_below(n[j].1, path, DiffTag::Added, t0.insert(dot, DiffTag::Added)),
            (Some(i), None) => tag_below(o[i].1, path, DiffTag::Removed, t0.insert(dot, DiffTag::Removed)),
            (Some(i), Some(j)) => match (o[i].1, n[j].1) {
                (Node::Branch(oc), Node::Branch(nc)) => {
                    let t1 = value_walk(oc, nc, path, t0);
                    t1.insert(
                        dot,
                        if changed_under(t1, dot) {
                            DiffTag::Modified
                        } else {
                            DiffTag::Unchanged
                        },
                    )
                },
                (Node::Leaf(a), Node::Leaf(b)) => t0.insert(
                    dot,
                    if a == b {
                        DiffTag::Unchanged
                    } else {
                        DiffTag::Modified
                    },
                ),
                (Node::Phantom, Node::Phantom) => t0.insert(dot, DiffTag::Unchanged),
                _ => t0.insert(dot, DiffTag::Modified),
            },
            (None, None) => t0,
        }
    }
}

/// Walk computing tags that only consider value changes (not deps).
fn value_diff_walk(old_children: &Vec<(String, ConfigNode)>, new_children: &Vec<(String, ConfigNode)>, prefix: &Vec<String>, tags: &mut Vec<(String, DiffTag)>)
    requires
        keys_distinct(tag_list(old(tags)@)),
    ensures
        keys_distinct(tag_list(final(tags)@)),
        tag_map(final(tags)@) == value_walk(level(old_children@), level(new_children@), texts(prefix@), tag_map(old(tags)@)),
    decreases old_children, new_children,
{
    let ghost o = level(old_children@);
    let ghost n = level(new_children@);
    let ghost t0 = tag_map(tags@);
    let names = union_names(old_children, new_children);
    let ghost all = texts(names@);
    let mut k: usize = 0;
    proof {
        assert(all.take(0) =~= Seq::<Seq<char>>::empty());
    }
    while k < names.len()
        invariant
            k <= names.len(),
            o == level(old_children@),
            n == level(new_children@),
            all == texts(names@),
            all == all_names(o, n),
            keys_distinct(tag_list(tags@)),
            tag_map(tags@) == value_walk_names(o, n, texts(prefix@), all.take(k as int), t0),
        decreases names.len() - k,
    {
        let name = &names[k];
        let mut path = copy_strings(prefix);
        path.push(copy_string(name));
        proof {
            assert(texts(path@) =~= texts(prefix@).push(name@));
            assert(all.take(k + 1).drop_last() =~= all.take(k as int));
            assert(all.take(k + 1).last() == name@);
            lemma_find_name(o, name@);
            lemma_find_name(n, name@);
        }
        let dot = join_path(&path);
        let oi = position_of(old_children, name);
        let ni = position_of(new_children, name);
        match (oi, ni) {
            (None, Some(j)) => {
                proof {
                    assert(n[j as int].1 == new_children@[j as int].1.model());
                }
                set_tag(tags, dot, DiffTag::Added);
                tag_all_descendants_simple(&new_children[j].1, &path, DiffTag::Added, tags);
            },
            (Some(i), None) => {
                proof {
                    assert(o[i as int].1 == old_children@[i as int].1.model());
                }
                set_tag(tags, dot, DiffTag::Removed);
                tag_all_descendants_simple(&old_children[i].1, &path, DiffTag::Removed, tags);
            },
            (Some(i), Some(j)) => {
                proof {
                    assert(o[i as int].1 == old_children@[i as int].1.model());
                    assert(n[j as int].1 == new_children@[j as int].1.model());
                }
                match (&old_children[i].1, &new_children[j].1) {
                    (ConfigNode::Branch(oc), ConfigNode::Branch(nc)) => {
                        proof {
                            lemma_branch_model(oc);
                            lemma_branch_model(nc);
                        }
                        value_diff_walk(oc, nc, &path, tags);
                        let changed = any_changed_under(tags, &dot, true);
                        set_tag(tags, dot, if changed { DiffTag::Modified } else { DiffTag::Unchanged });
                    },
                    (ConfigNode::Leaf(a), ConfigNode::Leaf(b)) => {
                        let same = json_equal(a, b);
                        set_tag(tags, dot, if same { DiffTag::Unchanged } else { DiffTag::Modified });
                    },
                    (ConfigNode::Phantom, ConfigNode::Phantom) => {
                        set_tag(tags, dot, DiffTag::Unchanged);
                    },
                    _ => {
                        set_tag(tags, dot, DiffTag::Modified);
                    },
                }
            },
            (None, None) => {},
        }
        k += 1;
    }
    proof {
        assert(all.take(names.len() as int) =~= all);
    }
}

// ---------------------------------------------------------------------------
// Tags that count values and dependencies
// ---------------------------------------------------------------------------

/// A path has the same dependencies and dependents in both indices.
pub open spec fn deps_same(od: DepsIndex, nd: DepsIndex, p: Seq<char>) -> bool {
    &&& table_get(table_model(od.dependencies@), p) == table_get(table_model(nd.dependencies@), p)
    &&& table_get(table_model(od.dependents@), p) == table_get(table_model(nd.dependents@), p)
}

/// `st` (tags, values) with every node below `n` given `tag`, and every leaf
/// below it given its value.
pub open spec fn tag_below_values(n: Node, path: Seq<Seq<char>>, tag: DiffTag, st: (Map<Seq<char>, DiffTag>, Map<Seq<char>, Json>)) -> (Map<Seq<char>, DiffTag>, Map<Seq<char>, Json>)
    decreases n, 0nat,
{
    match n {
        Node::Branch(ch) => tag_children_values(ch, path, tag, st),
        _ => st,
    }
}

pub open spec fn tag_children_values(ch: Seq<(Seq<char>, Node)>, path: Seq<Seq<char>>, tag: DiffTag, st: (Map<Seq<char>, DiffTag>, Map<Seq<char>, Json>)) -> (Map<Seq<char>, DiffTag>, Map<Seq<char>, Json>)
    decreases ch, 0nat,
{
    if ch.len() == 0 {
        st
    } else {
        let t = tag_children_values(ch.drop_last(), path, tag, st);
        let cp = path.push(ch.last().0);
        let d = join_dots(cp);
        let vals = match ch.last().1 {
            Node::Leaf(v) => t.1.insert(d, v),
            _ => t.1,
        };
        tag_below_values(ch.last().1, cp, tag, (t.0.insert(d, tag), vals))
    }
}

/// The value map with the value of `n` at `d` when `n` is a leaf.
pub open spec fn with_leaf(m: Map<Seq<char>, Json>, d: Seq<char>, n: Node) -> Map<Seq<char>, Json> {
    match n {
        Node::Leaf(v) => m.insert(d, v),
        _ => m,
    }
}

/// The state of a diff walk: tags, old leaf values, new leaf values.
pub type WalkState = (Map<Seq<char>, DiffTag>, Map<Seq<char>, Json>, Map<Seq<char>, Json>);

/// The state after walking two levels.
pub open spec fn diff_walk_spec(o: Seq<(Seq<char>, Node)>, n: Seq<(Seq<char>, Node)>, prefix: Seq<Seq<char>>, od: DepsIndex, nd: DepsIndex, st: WalkState) -> WalkState
    decreases o, n, 1nat, 0nat,
{
    diff_walk_names(o, n, prefix, od, nd, all_names(o, n), st)
}

/// The state after walking `names` in order: as in `value_walk_names`, and
/// two leaves or two placeholders are unchanged only when the path also has
/// the same dependencies and dependents in both indices; the values of the
/// leaves met are recorded on their side.
pub open spec fn diff_walk_names(o: Seq<(Seq<char>, Node)>, n: Seq<(Seq<char>, Node)>, prefix: Seq<Seq<char>>, od: DepsIndex, nd: DepsIndex, names: Seq<Seq<char>>, st: WalkState) -> WalkState
    decreases o, n, 0nat, names.len(),
{
    if names.len() == 0 {
        st
    } else {
        let t = diff_walk_names(o, n, prefix, od, nd, names.drop_last(), st);
        let name = names.last();
        let path = prefix.push(name);
        let dot = join_dots(path);
        proof {
            lemma_find_name(o, name);
            lemma_find_name(n, name);
        }
        match (find_name(o, name), find_name(n, name)) {
            (None, Some(j)) => {
                let r = tag_below_values(
                    n[j].1,
                    path,
                    DiffTag::Added,
                    (t.0.insert(dot, DiffTag::Added), with_leaf(t.2, dot, n[j].1)),
                );
                (r.0, t.1, r.1)
            },
            (Some(i), None) => {
                let r = tag_below_values(
                    o[i].1,
                    path,
                    DiffTag::Removed,
                    (t.0.insert(dot, DiffTag::Removed), with_leaf(t.1, dot, o[i].1)),
                );
                (r.0, r.1, t.2)
            },
            (Some(i), Some(j)) => match (o[i].1, n[j].1) {
                (Node::Branch(oc), Node::Branch(nc)) => {
                    let t1 = diff_walk_spec(oc, nc, path, od, nd, t);
                    (
                        t1.0.insert(
                            dot,
                            if changed_under(t1.0, dot) {
                                DiffTag::Modified
                            } else {
                                DiffTag::Unchanged
                            },
                        ),
                        t1.1,
                        t1.2,
                    )
                },
                (Node::Leaf(a), Node::Leaf(b)) => (
                    t.0.insert(
                        dot,
                        if a == b && deps_same(od, nd, dot) {
                            DiffTag::Unchanged
                        } else {
                            DiffTag::Modified
                        },
                    ),
                    t.1.insert(dot, a),
                    t.2.insert(dot, b),
                ),
                (Node::Phantom, Node::Phantom) => (
                    t.0.insert(
                        dot,
                        if deps_same(od, nd, dot) {
                            DiffTag::Unchanged
                        } else {
                            DiffTag::Modified
                        },
                    ),
                    t.1,
                    t.2,
                ),
                (on, nn) => (t.0.insert(dot, DiffTag::Modified), with_leaf(t.1, dot, on), with_leaf(t.2, dot, nn)),
            },
            (None, None) => t,
        }
    }
}

/// Records `node`'s value at `dot` when it is a leaf.
fn record_leaf(vals: &mut Vec<(String, JsonValue)>, dot: &String, node: &ConfigNode)
    requires
        keys_distinct(entries_model(old(vals)@)),
    ensures
        keys_distinct(entries_model(final(vals)@)),
        value_map(final(vals)@) == with_leaf(value_map(old(vals)@), dot@, node.model()),
{
    match node {
        ConfigNode::Leaf(v) => {
            set_value(vals, copy_string(dot), copy_json(v));
        },
        _ => {},
    }
}

/// Tags every node below `node` with `tag` and records the value of every
/// leaf below it in `vals` (the new values for added nodes, the old values
/// for removed ones).
fn tag_all_descendants(node: &ConfigNode, path: &Vec<String>, tag: DiffTag, tags: &mut Vec<(String, DiffTag)>, vals: &mut Vec<(String, JsonValue)>)
    requires
        keys_distinct(tag_list(old(tags)@)),
        keys_distinct(entries_model(old(vals)@)),
    ensures
        keys_distinct(tag_list(final(tags)@)),
        keys_distinct(entries_model(final(vals)@)),
        (tag_map(final(tags)@), value_map(final(vals)@)) == tag_below_values(
            node.model(),
            texts(path@),
            tag,
            (tag_map(old(tags)@), value_map(old(vals)@)),
        ),
    decreases node, 0nat,
{
    match node {
        ConfigNode::Branch(children) => {
            proof {
                lemma_branch_model(children);
            }
            tag_children_with_values(children, path, tag, tags, vals);
        },
        _ => {},
    }
}

fn tag_children_with_values(children: &Vec<(String, ConfigNode)>, path: &Vec<String>, tag: DiffTag, tags: &mut Vec<(String, DiffTag)>, vals: &mut Vec<(String, JsonValue)>)
    requires
        keys_distinct(tag_list(old(tags)@)),
        keys_distinct(entries_model(old(vals)@)),
    ensures
        keys_distinct(tag_list(final(tags)@)),
        keys_distinct(entries_model(final(vals)@)),
        (tag_map(final(tags)@), value_map(final(vals)@)) == tag_children_values(
            level(children@),
            texts(path@),
            tag,
            (tag_map(old(tags)@), value_map(old(vals)@)),
        ),
    decreases children, 0nat,
{
    let ghost lv = level(children@);
    let ghost st0 = (tag_map(tags@), value_map(vals@));
    let mut i: usize = 0;
    proof {
        assert(lv.take(0) =~= Seq::<(Seq<char>, Node)>::empty());
    }
    while i < children.len()
        invariant
            i <= children.len(),
            lv == level(children@),
            keys_distinct(tag_list(tags@)),
            keys_distinct(entries_model(vals@)),
            (tag_map(tags@), value_map(vals@)) == tag_children_values(lv.take(i as int), texts(path@), tag, st0),
        decreases children.len() - i,
    {
        let mut child_path = copy_strings(path);
        child_path.push(copy_string(&children[i].0));
        proof {
            assert(texts(child_path@) =~= texts(path@).push(children@[i as int].0@));
            assert(lv.take(i + 1).drop_last() =~= lv.take(i as int));
            assert(lv.take(i + 1).last() == (children@[i as int].0@, children@[i as int].1.model()));
        }
        let dot = join_path(&child_path);
        record_leaf(vals, &dot, &children[i].1);
        set_tag(tags, dot, tag);
        tag_all_descendants(&children[i].1, &child_path, tag, tags, vals);
        i += 1;
    }
    proof {
        assert(lv.take(children.len() as int) =~= lv);
    }
}

/// Walk two levels, tagging every path and recording the leaf values met.
fn diff_walk(
    old_children: &Vec<(String, ConfigNode)>,
    new_children: &Vec<(String, ConfigNode)>,
    prefix: &Vec<String>,
    tags: &mut Vec<(String, DiffTag)>,
    old_values: &mut Vec<(String, JsonValue)>,
    new_values: &mut Vec<(String, JsonValue)>,
    old_deps: &DepsIndex,
    new_deps: &DepsIndex,
)
    requires
        keys_distinct(tag_list(old(tags)@)),
        keys_distinct(entries_model(old(old_values)@)),
        keys_distinct(entries_model(old(new_values)@)),
    ensures
        keys_distinct(tag_list(final(tags)@)),
        keys_distinct(entries_model(final(old_values)@)),
        keys_distinct(entries_model(final(new_values)@)),
        (tag_map(final(tags)@), value_map(final(old_values)@), value_map(final(new_values)@)) == diff_walk_spec(
            level(old_children@),
            level(new_children@),
            texts(prefix@),
            *old_deps,
            *new_deps,
            (tag_map(old(tags)@), value_map(old(old_values)@), value_map(old(new_values)@)),
        ),
    decreases old_children, new_children,
{
    let ghost o = level(old_children@);
    let ghost n = level(new_children@);
    let ghost st0 = (tag_map(tags@), value_map(old_values@), value_map(new_values@));
    let names = union_names(old_children, new_children);
    let ghost all = texts(names@);
    let mut k: usize = 0;
    proof {
        assert(all.take(0) =~= Seq::<Seq<char>>::empty());
    }
    while k < names.len()
        invariant
            k <= names.len(),
            o == level(old_children@),
            n == level(new_children@),
            all == texts(names@),
            all == all_names(o, n),
            keys_distinct(tag_list(tags@)),
            keys_distinct(entries_model(old_values@)),
            keys_distinct(entries_model(new_values@)),
            (tag_map(tags@), value_map(old_values@), value_map(new_values@)) == diff_walk_names(
                o,
                n,
                texts(prefix@),
                *old_deps,
                *new_deps,
                all.take(k as int),
                st0,
            ),
        decreases names.len() - k,
    {
        let name = &names[k];
        let mut path = copy_strings(prefix);
        path.push(copy_string(name));
        proof {
            assert(texts(path@) =~= texts(prefix@).push(name@));
            assert(all.take(k + 1).drop_last() =~= all.take(k as int));
            assert(all.take(k + 1).last() == name@);
            lemma_find_name(o, name@);
            lemma_find_name(n, name@);
        }
        let dot = join_path(&path);
        let oi = position_of(old_children, name);
        let ni = position_of(new_children, name);
        match (oi, ni) {
            (None, Some(j)) => {
                proof {
                    assert(n[j as int].1 == new_children@[j as int].1.model());
                }
                record_leaf(new_values, &dot, &new_children[j].1);
                set_tag(tags, dot, DiffTag::Added);
                tag_all_descendants(&new_children[j].1, &path, DiffTag::Added, tags, new_values);
            },
            (Some(i), None) => {
                proof {
                    assert(o[i as int].1 == old_children@[i as int].1.model());
                }
                record_leaf(old_values, &dot, &old_children[i].1);
                set_tag(tags, dot, DiffTag::Removed);
                tag_all_descendants(&old_children[i].1, &path, DiffTag::Removed, tags, old_values);
            },
            (Some(i), Some(j)) => {
                proof {
                    assert(o[i as int].1 == old_children@[i as int].1.model());
                    assert(n[j as int].1 == new_children@[j as int].1.model());
                }
                match (&old_children[i].1, &new_children[j].1) {
                    (ConfigNode::Branch(oc), ConfigNode::Branch(nc)) => {
                        proof {
                            lemma_branch_model(oc);
                            lemma_branch_model(nc);
                        }
                        diff_walk(oc, nc, &path, tags, old_values, new_values, old_deps, new_deps);
                        let changed = any_changed_under(tags, &dot, true);
                        set_tag(tags, dot, if changed { DiffTag::Modified } else { DiffTag::Unchanged });
                    },
                    (ConfigNode::Leaf(a), ConfigNode::Leaf(b)) => {
                        set_value(old_values, copy_string(&dot), copy_json(a));
                        set_value(new_values, copy_string(&dot), copy_json(b));
                        let vals_equal = json_equal(a, b);
                        let deps_equal = deps_match(old_deps, new_deps, dot.as_str());
                        set_tag(tags, dot, if vals_equal && deps_equal { DiffTag::Unchanged } else { DiffTag::Modified });
                    },
                    (ConfigNode::Phantom, ConfigNode::Phantom) => {
                        let deps_equal = deps_match(old_deps, new_deps, dot.as_str());
                        set_tag(tags, dot, if deps_equal { DiffTag::Unchanged } else { DiffTag::Modified });
                    },
                    (on, nn) => {
                        record_leaf(old_values, &dot, on);
                        record_leaf(new_values, &dot, nn);
                        set_tag(tags, dot, DiffTag::Modified);
                    },
                }
            },
            (None, None) => {},
        }
        k += 1;
    }
    proof {
        assert(all.take(names.len() as int) =~= all);
    }
}

/// The diff context for two trees: the tags of a full walk, the tags of a
/// walk that compares values alone, the leaf values met, both indices, and
/// the filter that shows value changes.
pub fn build_diff_context(old_root: &Vec<(String, ConfigNode)>, new_root: &Vec<(String, ConfigNode)>, old_deps: DepsIndex, new_deps: DepsIndex) -> (ctx: DiffContext)
    ensures
        ctx.wf(),
        (tag_map(ctx.tags@), value_map(ctx.old_values@), value_map(ctx.new_values@)) == diff_walk_spec(
            level(old_root@),
            level(new_root@),
            seq![],
            old_deps,
            new_deps,
            (Map::empty(), Map::empty(), Map::empty()),
        ),
        tag_map(ctx.value_tags@) == value_walk(level(old_root@), level(new_root@), seq![], Map::empty()),
        ctx.old_deps == old_deps,
        ctx.new_deps == new_deps,
        ctx.filter == DiffFilter::ValueChanged,
{
    let mut tags: Vec<(String, DiffTag)> = Vec::new();
    let mut old_values: Vec<(String, JsonValue)> = Vec::new();
    let mut new_values: Vec<(String, JsonValue)> = Vec::new();
    let prefix: Vec<String> = Vec::new();
    proof {
        assert(texts(prefix@) =~= Seq::<Seq<char>>::empty());
        assert(tag_map(tags@) =~= Map::empty());
        assert(value_map(old_values@) =~= Map::empty());
        assert(value_map(new_values@) =~= Map::empty());
    }
    diff_walk(old_root, new_root, &prefix, &mut tags, &mut old_values, &mut new_values, &old_deps, &new_deps);
    let mut value_tags: Vec<(String, DiffTag)> = Vec::new();
    proof {
        assert(tag_map(value_tags@) =~= Map::empty());
    }
    value_diff_walk(old_root, new_root, &prefix, &mut value_tags);
    DiffContext {
        tags,
        value_tags,
        old_values,
        new_values,
        old_deps,
        new_deps,
        filter: DiffFilter::ValueChanged,
    }
}

// ---------------------------------------------------------------------------
// The two walks agree where the dependencies do
// ---------------------------------------------------------------------------

proof fn lemma_tag_below_values(n: Node, path: Seq<Seq<char>>, tag: DiffTag, st: (Map<Seq<char>, DiffTag>, Map<Seq<char>, Json>))
    ensures
        tag_below_values(n, path, tag, st).0 == tag_below(n, path, tag, st.0),
    decreases n, 0nat,
{
    match n {
        Node::Branch(ch) => {
            lemma_tag_children_values(ch, path, tag, st);
        },
        _ => {},
    }
}

proof fn lemma_tag_children_values(
    ch: Seq<(Seq<char>, Node)>,
    path: Seq<Seq<char>>,
    tag: DiffTag,
    st: (Map<Seq<char>, DiffTag>, Map<Seq<char>, Json>),
)
    ensures
        tag_children_values(ch, path, tag, st).0 == tag_children(ch, path, tag, st.0),
    decreases ch, 0nat,
{
    if ch.len() > 0 {
        lemma_tag_children_values(ch.drop_last(), path, tag, st);
        let t = tag_children_values(ch.drop_last(), path, tag, st);
        let cp = path.push(ch.last().0);
        let d = join_dots(cp);
        let vals = match ch.last().1 {
            Node::Leaf(v) => t.1.insert(d, v),
            _ => t.1,
        };
        lemma_tag_below_values(ch.last().1, cp, tag, (t.0.insert(d, tag), vals));
    }
}

proof fn lemma_walk_names_same_deps(
    o: Seq<(Seq<char>, Node)>,
    n: Seq<(Seq<char>, Node)>,
    prefix: Seq<Seq<char>>,
    d: DepsIndex,
    names: Seq<Seq<char>>,
    st: WalkState,
)
    ensures
        diff_walk_names(o, n, prefix, d, d, names, st).0 == value_walk_names(o, n, prefix, names, st.0),
    decreases o, n, 0nat, names.len(),
{
    if names.len() > 0 {
        lemma_walk_names_same_deps(o, n, prefix, d, names.drop_last(), st);
        let t = diff_walk_names(o, n, prefix, d, d, names.drop_last(), st);
        let name = names.last();
        let path = prefix.push(name);
        let dot = join_dots(path);
        lemma_find_name(o, name);
        lemma_find_name(n, name);
        match (find_name(o, name), find_name(n, name)) {
            (None, Some(j)) => {
                lemma_tag_below_values(
                    n[j].1,
                    path,
                    DiffTag::Added,
                    (t.0.insert(dot, DiffTag::Added), with_leaf(t.2, dot, n[j].1)),
                );
            },
            (Some(i), None) => {
                lemma_tag_below_values(
                    o[i].1,
                    path,
                    DiffTag::Removed,
                    (t.0.insert(dot, DiffTag::Removed), with_leaf(t.1, dot, o[i].1)),
                );
            },
            (Some(i), Some(j)) => match (o[i].1, n[j].1) {
                (Node::Branch(oc), Node::Branch(nc)) => {
                    lemma_value_walk_same_deps(oc, nc, path, d, t);
                },
                _ => {},
            },
            (None, None) => {},
        }
    }
}

/// With the same index on both sides, the tags of the full walk are the
/// tags of the walk that compares values alone: a dependency difference is
/// all that tells them apart.
pub proof fn lemma_value_walk_same_deps(
    o: Seq<(Seq<char>, Node)>,
    n: Seq<(Seq<char>, Node)>,
    prefix: Seq<Seq<char>>,
    d: DepsIndex,
    st: WalkState,
)
    ensures
        diff_walk_spec(o, n, prefix, d, d, st).0 == value_walk(o, n, prefix, st.0),
    decreases o, n, 1nat, 0nat,
{
    lemma_walk_names_same_deps(o, n, prefix, d, all_names(o, n), st);
}

// ---------------------------------------------------------------------------
// What the union keeps
// ---------------------------------------------------------------------------

pub proof fn lemma_dedup_contains(s: Seq<Seq<char>>, x: Seq<char>)
    ensures
        dedup(s).contains(x) <==> s.contains(x),
    decreases s.len(),
{
    if s.len() > 0 {
        lemma_dedup_contains(s.drop_last(), x);
        let d = dedup(s.drop_last());
        if s.contains(x) && !s.drop_last().contains(x) {
            let k = choose|k: int| 0 <= k < s.len() && s[k] == x;
            if k < s.len() - 1 {
                assert(s.drop_last()[k] == x);
            }
            if !d.contains(s.last()) {
                assert(d.push(s.last())[d.len() as int] == x);
            }
        }
        if s.drop_last().contains(x) {
            let k = choose|k: int| 0 <= k < s.drop_last().len() && s.drop_last()[k] == x;
            assert(s[k] == x);
        }
        if !d.contains(s.last()) && d.push(s.last()).contains(x) {
            let k = choose|k: int| 0 <= k < d.len() + 1 && d.push(s.last())[k] == x;
            if k < d.len() {
                assert(d[k] == x);
            } else {
                assert(s[s.len() - 1] == x);
            }
        }
        if d.contains(x) {
            let k = choose|k: int| 0 <= k < d.len() && d[k] == x;
            assert(d.push(s.last())[k] == x);
        }
    }
}

proof fn lemma_union_entries_names(o: Seq<(Seq<char>, Node)>, n: Seq<(Seq<char>, Node)>, names: Seq<Seq<char>>)
    ensures
        names_of(union_entries(o, n, names)) == names,
    decreases names.len(),
{
    if names.len() > 0 {
        lemma_union_entries_names(o, n, names.drop_last());
        let e = union_entries(o, n, names);
        let r = union_entries(o, n, names.drop_last());
        assert(e.len() == r.len() + 1);
        assert(forall|i: int| 0 <= i < r.len() ==> e[i] == r[i]);
        assert(e[r.len() as int].0 == names.last());
        assert(names_of(e) =~= names_of(r).push(names.last()));
        assert(names.drop_last().push(names.last()) =~= names);
    }
}

/// The union of two levels has every name of either level, and no other.
pub proof fn lemma_union_names(o: Seq<(Seq<char>, Node)>, n: Seq<(Seq<char>, Node)>, name: Seq<char>)
    ensures
        names_of(union_level(o, n)).contains(name) <==> (names_of(o).contains(name) || names_of(n).contains(name)),
{
    let all = all_names(o, n);
    let e = union_entries(o, n, all);
    let u = union_level(o, n);
    lemma_union_entries_names(o, n, all);
    lemma_dedup_contains(names_of(o) + names_of(n), name);
    lemma_sort_entries(e);
    assert(u == sort_entries(e));
    assert(u.to_multiset() == e.to_multiset());
    assert((names_of(o) + names_of(n)).contains(name) <==> (names_of(o).contains(name) || names_of(n).contains(name))) by {
        let c = names_of(o) + names_of(n);
        if c.contains(name) {
            let k = choose|k: int| 0 <= k < c.len() && c[k] == name;
            if k < names_of(o).len() {
                assert(names_of(o)[k] == name);
            } else {
                assert(names_of(n)[k - names_of(o).len()] == name);
            }
        }
        if names_of(o).contains(name) {
            let k = choose|k: int| 0 <= k < names_of(o).len() && names_of(o)[k] == name;
            assert(c[k] == name);
        }
        if names_of(n).contains(name) {
            let k = choose|k: int| 0 <= k < names_of(n).len() && names_of(n)[k] == name;
            assert(c[k + names_of(o).len()] == name);
        }
    }
    // Sorting keeps the entries, so it keeps the names.
    assert(names_of(u).contains(name) <==> names_of(e).contains(name)) by {
        if names_of(u).contains(name) {
            let k = choose|k: int| 0 <= k < names_of(u).len() && names_of(u)[k] == name;
            assert(u.contains(u[k]));
            u.to_multiset_ensures();
            e.to_multiset_ensures();
            assert(u.to_multiset().count(u[k]) > 0);
            assert(e.to_multiset().count(u[k]) > 0);
            assert(e.contains(u[k]));
            let j = choose|j: int| 0 <= j < e.len() && e[j] == u[k];
            assert(names_of(e)[j] == name);
        }
        if names_of(e).contains(name) {
            let k = choose|k: int| 0 <= k < names_of(e).len() && names_of(e)[k] == name;
            assert(e.contains(e[k]));
            u.to_multiset_ensures();
            e.to_multiset_ensures();
            assert(e.to_multiset().count(e[k]) > 0);
            assert(u.to_multiset().count(e[k]) > 0);
            assert(u.contains(e[k]));
            let j = choose|j: int| 0 <= j < u.len() && u[j] == e[k];
            assert(names_of(u)[j] == name);
        }
    }
}

} // verus!
