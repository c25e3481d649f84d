use vstd::prelude::*;

use crate::json::{copy_json, entries_model, lemma_object_model, Json, JsonValue};
use crate::order::{
    lemma_text_lt_asymmetric, lemma_text_lt_irreflexive, lemma_text_lt_total, lemma_text_lt_transitive,
    name_lt, text_lt,
};
use crate::json2nix::{indent_text, write_indent};
use crate::paths::{copy_strings, texts, join_dots, join_path, lowercase_of, matches_query, text_contains, to_lowercase};
use crate::text::{copy_string, push_string, same_text};
use crate::values::{format_value_short, short_ok, short_text};

verus! {

// ---------------------------------------------------------------------------
// The configuration tree
// ---------------------------------------------------------------------------

/// A node of the configuration tree.
pub enum ConfigNode {
    Branch(Vec<(String, ConfigNode)>),
    Leaf(JsonValue),
    /// A node that appears in the dependency graph but has no serializable value.
    Phantom,
}

/// The model of a configuration node.
pub enum Node {
    Branch(Seq<(Seq<char>, Node)>),
    Leaf(Json),
    Phantom,
}

impl ConfigNode {
    pub open spec fn model(&self) -> Node
        decreases self,
    {
        match self {
            ConfigNode::Branch(children) => Node::Branch(
                Seq::new(
                    children.len() as nat,
                    |i: int|
                        if 0 <= i < children.len() {
                            (children@[i].0@, children@[i].1.model())
                        } else {
                            (Seq::empty(), Node::Phantom)
                        },
                ),
            ),
            ConfigNode::Leaf(v) => Node::Leaf(v.model()),
            ConfigNode::Phantom => Node::Phantom,
        }
    }
}

/// The model of one level of the tree: names with their nodes.
pub open spec fn level(children: Seq<(String, ConfigNode)>) -> Seq<(Seq<char>, Node)> {
    Seq::new(children.len(), |i: int| (children[i].0@, children[i].1.model()))
}

pub proof fn lemma_branch_model(children: &Vec<(String, ConfigNode)>)
    ensures
        ConfigNode::Branch(*children).model() == Node::Branch(level(children@)),
{
    let m = ConfigNode::Branch(*children).model();
    if let Node::Branch(s) = m {
        assert(s =~= level(children@));
    }
}

// ---------------------------------------------------------------------------
// Ordering: branches first, then by name
// ---------------------------------------------------------------------------

pub open spec fn is_branch(n: Node) -> bool {
    n matches Node::Branch(_)
}

/// Entry `a` must come before entry `b`: branches before other nodes, and
/// among the same kind, by name.
pub open spec fn entry_before(a: (Seq<char>, Node), b: (Seq<char>, Node)) -> bool {
    (is_branch(a.1) && !is_branch(b.1)) || (is_branch(a.1) == is_branch(b.1) && text_lt(a.0, b.0))
}

/// Where `x` goes in the sorted `t`: before the first entry that does not
/// come before it.
pub open spec fn insert_pos(t: Seq<(Seq<char>, Node)>, x: (Seq<char>, Node)) -> int
    decreases t.len(),
{
    if t.len() == 0 {
        0
    } else if !entry_before(t[0], x) {
        0
    } else {
        1 + insert_pos(t.drop_first(), x)
    }
}

/// `s` sorted with branches first and then by name, keeping the relative
/// order of entries that compare equal.
pub open spec fn sort_entries(s: Seq<(Seq<char>, Node)>) -> Seq<(Seq<char>, Node)>
    decreases s.len(),
{
    if s.len() == 0 {
        s
    } else {
        let t = sort_entries(s.drop_first());
        t.insert(insert_pos(t, s[0]), s[0])
    }
}

pub fn node_is_branch(n: &ConfigNode) -> (r: bool)
    ensures
        r == is_branch(n.model()),
{
    match n {
        ConfigNode::Branch(_) => true,
        _ => false,
    }
}

fn entry_before_exec(a: &(String, ConfigNode), b: &(String, ConfigNode)) -> (r: bool)
    ensures
        r == entry_before((a.0@, a.1.model()), (b.0@, b.1.model())),
{
    let ab = node_is_branch(&a.1);
    let bb = node_is_branch(&b.1);
    (ab && !bb) || (ab == bb && name_lt(&a.0, &b.0))
}

/// Sort children so that branches come first, then by name.
pub fn sort_branches_first(children: &mut Vec<(String, ConfigNode)>)
    ensures
        level(final(children)@) == sort_entries(level(old(children)@)),
{
    let ghost s = level(children@);
    let mut items: Vec<(String, ConfigNode)> = Vec::new();
    std::mem::swap(&mut items, children);
    let mut out: Vec<(String, ConfigNode)> = Vec::new();
    proof {
        assert(s.take(s.len() as int) =~= s);
        assert(s.skip(s.len() as int) =~= Seq::<(Seq<char>, Node)>::empty());
        assert(level(out@) =~= sort_entries(s.skip(s.len() as int)));
    }
    while items.len() > 0
        invariant
            s.len() >= items@.len(),
            level(items@) == s.take(items@.len() as int),
            level(out@) == sort_entries(s.skip(items@.len() as int)),
        decreases items.len(),
    {
        let n = items.len();
        let ghost before = items@;
        let x = items.pop().unwrap();
        proof {
            assert(level(before)[n - 1] == (x.0@, x.1.model()));
            assert(s.take(n as int)[n - 1] == s[n - 1]);
            assert(level(items@) =~= s.take(n - 1));
            assert((x.0@, x.1.model()) == s[n - 1]);
            assert(s.skip(n - 1).drop_first() =~= s.skip(n as int));
            assert(s.skip(n - 1)[0] == s[n - 1]);
        }
        let ghost t = level(out@);
        let mut j: usize = 0;
        proof {
            assert(t.skip(0) =~= t);
        }
        while j < out.len() && entry_before_exec(&out[j], &x)
            invariant
                j <= out@.len(),
                t == level(out@),
                insert_pos(t, (x.0@, x.1.model())) == j + insert_pos(t.skip(j as int), (x.0@, x.1.model())),
            decreases out.len() - j,
        {
            proof {
                assert(t.skip(j as int).drop_first() =~= t.skip(j + 1));
                assert(t.skip(j as int)[0] == t[j as int]);
            }
            j += 1;
        }
        proof {
            assert(t.skip(0) =~= t);
            if j < out@.len() {
                assert(t.skip(j as int)[0] == t[j as int]);
            }
            assert(insert_pos(t, (x.0@, x.1.model())) == j);
        }
        out.insert(j, x);
        proof {
            assert(level(out@) =~= t.insert(j as int, s[n - 1]));
        }
    }
    *children = out;
    proof {
        assert(s.skip(0) =~= s);
    }
}

// ---------------------------------------------------------------------------
// The order is a strict weak order, and sorting sorts
// ---------------------------------------------------------------------------

proof fn lemma_entry_before_asymmetric(a: (Seq<char>, Node), b: (Seq<char>, Node))
    requires
        entry_before(a, b),
    ensures
        !entry_before(b, a),
{
    if is_branch(a.1) == is_branch(b.1) {
        lemma_text_lt_asymmetric(a.0, b.0);
    }
}

proof fn lemma_entry_not_before_transitive(a: (Seq<char>, Node), b: (Seq<char>, Node), c: (Seq<char>, Node))
    requires
        !entry_before(a, b),
        !entry_before(b, c),
    ensures
        !entry_before(a, c),
{
    if entry_before(a, c) && is_branch(a.1) == is_branch(b.1) && is_branch(b.1) == is_branch(c.1) {
        // b.0 <= a.0 and c.0 <= b.0 by totality, so c.0 <= a.0.
        if a.0 != b.0 {
            lemma_text_lt_total(a.0, b.0);
        }
        if b.0 != c.0 {
            lemma_text_lt_total(b.0, c.0);
        }
        if a.0 != b.0 && b.0 != c.0 {
            lemma_text_lt_transitive(c.0, b.0, a.0);
            lemma_text_lt_asymmetric(c.0, a.0);
        } else if a.0 == b.0 && b.0 != c.0 {
            lemma_text_lt_asymmetric(c.0, b.0);
        } else if a.0 != b.0 {
            lemma_text_lt_asymmetric(b.0, a.0);
        } else {
            lemma_text_lt_irreflexive(a.0);
        }
    }
}

/// No entry of `t` must come before an entry that precedes it.
pub open spec fn sorted_entries(t: Seq<(Seq<char>, Node)>) -> bool {
    forall|i: int, j: int| 0 <= i < j < t.len() ==> !entry_before(#[trigger] t[j], #[trigger] t[i])
}

proof fn lemma_insert_pos(t: Seq<(Seq<char>, Node)>, x: (Seq<char>, Node))
    ensures
        0 <= insert_pos(t, x) <= t.len(),
        forall|i: int| 0 <= i < insert_pos(t, x) ==> entry_before(#[trigger] t[i], x),
        insert_pos(t, x) < t.len() ==> !entry_before(t[insert_pos(t, x)], x),
    decreases t.len(),
{
    if t.len() > 0 && entry_before(t[0], x) {
        lemma_insert_pos(t.drop_first(), x);
        assert forall|i: int| 0 <= i < insert_pos(t, x) implies entry_before(#[trigger] t[i], x) by {
            if i > 0 {
                assert(t[i] == t.drop_first()[i - 1]);
            }
        }
    }
}

proof fn lemma_insert_sorted(t: Seq<(Seq<char>, Node)>, x: (Seq<char>, Node))
    requires
        sorted_entries(t),
    ensures
        sorted_entries(t.insert(insert_pos(t, x), x)),
{
    lemma_insert_pos(t, x);
    let p = insert_pos(t, x);
    let u = t.insert(p, x);
    assert forall|j: int| p <= j < t.len() implies !entry_before(#[trigger] t[j], x) by {
        if j > p {
            lemma_entry_not_before_transitive(t[j], t[p], x);
        }
    }
    assert forall|i: int, j: int| 0 <= i < j < u.len() implies !entry_before(#[trigger] u[j], #[trigger] u[i]) by {
        if j < p {
            assert(u[i] == t[i] && u[j] == t[j]);
        } else if j == p {
            assert(u[i] == t[i]);
            lemma_entry_before_asymmetric(t[i], x);
        } else if i < p {
            assert(u[i] == t[i] && u[j] == t[j - 1]);
        } else if i == p {
            assert(u[j] == t[j - 1]);
        } else {
            assert(u[i] == t[i - 1] && u[j] == t[j - 1]);
        }
    }
}

/// Sorting puts branches first and names in order, and keeps exactly the
/// entries it was given.
pub proof fn lemma_sort_entries(s: Seq<(Seq<char>, Node)>)
    ensures
        sorted_entries(sort_entries(s)),
        sort_entries(s).to_multiset() == s.to_multiset(),
        sort_entries(s).len() == s.len(),
    decreases s.len(),
{
    if s.len() > 0 {
        let t = sort_entries(s.drop_first());
        lemma_sort_entries(s.drop_first());
        lemma_insert_sorted(t, s[0]);
        lemma_insert_pos(t, s[0]);
        vstd::seq_lib::to_multiset_insert(t, insert_pos(t, s[0]), s[0]);
        assert(s.drop_first().insert(0, s[0]) =~= s);
        vstd::seq_lib::to_multiset_insert(s.drop_first(), 0, s[0]);
    }
}

// ---------------------------------------------------------------------------
// Building the tree from a JSON document
// ---------------------------------------------------------------------------

/// The tree node for a JSON value: a non-empty object becomes a branch whose
/// children are sorted branches first and then by name; anything else is a
/// leaf holding the value.
pub open spec fn config_node(v: Json) -> Node
    decreases v, 0nat,
{
    match v {
        Json::Object(entries) => if entries.len() == 0 {
            Node::Leaf(v)
        } else {
            Node::Branch(sort_entries(entry_nodes(entries)))
        },
        _ => Node::Leaf(v),
    }
}

/// The children of an object's entries, in the order of the entries.
pub open spec fn entry_nodes(entries: Seq<(Seq<char>, Json)>) -> Seq<(Seq<char>, Node)>
    decreases entries, 0nat,
{
    if entries.len() == 0 {
        Seq::empty()
    } else {
        entry_nodes(entries.drop_last()).push((entries.last().0, config_node(entries.last().1)))
    }
}

pub proof fn lemma_entry_nodes(entries: Seq<(Seq<char>, Json)>)
    ensures
        entry_nodes(entries).len() == entries.len(),
        forall|i: int|
            0 <= i < entries.len() ==> #[trigger] entry_nodes(entries)[i] == (
                entries[i].0,
                config_node(entries[i].1),
            ),
    decreases entries.len(),
{
    if entries.len() > 0 {
        lemma_entry_nodes(entries.drop_last());
    }
}

/// The top level of the tree for a document: the sorted children of an
/// object, or a single entry `config` for any other value.
pub open spec fn root_children(v: Json) -> Seq<(Seq<char>, Node)> {
    match v {
        Json::Object(entries) => sort_entries(entry_nodes(entries)),
        _ => seq![("config"@, config_node(v))],
    }
}

/// The unsorted children for the entries of an object.
fn children_of_entries(entries: &Vec<(String, JsonValue)>) -> (out: Vec<(String, ConfigNode)>)
    ensures
        level(out@) == entry_nodes(entries_model(entries@)),
    decreases entries,
{
    let mut out: Vec<(String, ConfigNode)> = Vec::new();
    let mut i: usize = 0;
    while i < entries.len()
        invariant
            i <= entries.len(),
            out@.len() == i,
            forall|k: int|
                0 <= k < i ==> (#[trigger] out@[k]).0@ == entries@[k].0@ && out@[k].1.model()
                    == config_node(entries@[k].1.model()),
        decreases entries.len() - i,
    {
        let name = copy_string(&entries[i].0);
        let node = build_config_tree(&entries[i].1);
        out.push((name, node));
        i += 1;
    }
    proof {
        lemma_entry_nodes(entries_model(entries@));
        assert(level(out@) =~= entry_nodes(entries_model(entries@)));
    }
    out
}

/// The tree node for a JSON value.
pub fn build_config_tree(value: &JsonValue) -> (node: ConfigNode)
    ensures
        node.model() == config_node(value.model()),
    decreases value,
{
    match value {
        JsonValue::Object(entries) => {
            proof {
                lemma_object_model(entries);
            }
            if entries.len() == 0 {
                ConfigNode::Leaf(copy_json(value))
            } else {
                let mut children = children_of_entries(entries);
                sort_branches_first(&mut children);
                proof {
                    lemma_branch_model(&children);
                }
                ConfigNode::Branch(children)
            }
        },
        _ => ConfigNode::Leaf(copy_json(value)),
    }
}

/// Convert a JSON value into root children.
pub fn build_root_children(json: &JsonValue) -> (children: Vec<(String, ConfigNode)>)
    ensures
        level(children@) == root_children(json.model()),
{
    match json {
        JsonValue::Object(entries) => {
            proof {
                lemma_object_model(entries);
            }
            let mut children = children_of_entries(entries);
            sort_branches_first(&mut children);
            children
        },
        _ => {
            let node = build_config_tree(json);
            let mut children: Vec<(String, ConfigNode)> = Vec::new();
            children.push((String::from_str("config"), node));
            proof {
                assert(level(children@) =~= root_children(json.model()));
            }
            children
        },
    }
}

// ---------------------------------------------------------------------------
// Paths
// ---------------------------------------------------------------------------

/// The index of the first entry named `name`.
pub open spec fn find_name(lv: Seq<(Seq<char>, Node)>, name: Seq<char>) -> Option<int>
    decreases lv.len(),
{
    if lv.len() == 0 {
        None
    } else if lv[0].0 == name {
        Some(0)
    } else {
        match find_name(lv.drop_first(), name) {
            Some(i) => Some(i + 1),
            None => None,
        }
    }
}

/// The children reached by following `path` from `lv`: each segment names a
/// branch (the first entry of that name); `None` when a segment is missing or
/// names something other than a branch.
pub open spec fn children_at(lv: Seq<(Seq<char>, Node)>, path: Seq<Seq<char>>) -> Option<Seq<(Seq<char>, Node)>>
    decreases path.len(),
{
    if path.len() == 0 {
        Some(lv)
    } else {
        match find_name(lv, path[0]) {
            Some(i) => match lv[i].1 {
                Node::Branch(ch) => children_at(ch, path.drop_first()),
                _ => None,
            },
            None => None,
        }
    }
}

/// The node named `name` among the children at `path`.
pub open spec fn node_at(lv: Seq<(Seq<char>, Node)>, path: Seq<Seq<char>>, name: Seq<char>) -> Option<Node> {
    match children_at(lv, path) {
        Some(ch) => match find_name(ch, name) {
            Some(i) => Some(ch[i].1),
            None => None,
        },
        None => None,
    }
}

/// The node at a full path: its last segment is the name of the node.
pub open spec fn lookup(lv: Seq<(Seq<char>, Node)>, path: Seq<Seq<char>>) -> Option<Node> {
    if path.len() == 0 {
        None
    } else {
        node_at(lv, path.drop_last(), path.last())
    }
}

pub proof fn lemma_find_name(lv: Seq<(Seq<char>, Node)>, name: Seq<char>)
    ensures
        match find_name(lv, name) {
            Some(i) => 0 <= i < lv.len() && lv[i].0 == name && forall|k: int| 0 <= k < i ==> lv[k].0 != name,
            None => forall|k: int| 0 <= k < lv.len() ==> lv[k].0 != name,
        },
    decreases lv.len(),
{
    if lv.len() > 0 && lv[0].0 != name {
        lemma_find_name(lv.drop_first(), name);
        match find_name(lv.drop_first(), name) {
            Some(i) => {
                assert forall|k: int| 0 <= k < i + 1 implies lv[k].0 != name by {
                    if k > 0 {
                        assert(lv[k] == lv.drop_first()[k - 1]);
                    }
                }
            },
            None => {
                assert forall|k: int| 0 <= k < lv.len() implies lv[k].0 != name by {
                    if k > 0 {
                        assert(lv[k] == lv.drop_first()[k - 1]);
                    }
                }
            },
        }
    }
}

/// The index of the first child named `name`.
pub fn position_of(children: &Vec<(String, ConfigNode)>, name: &String) -> (r: Option<usize>)
    ensures
        match r {
            Some(i) => find_name(level(children@), name@) == Some(i as int),
            None => find_name(level(children@), name@) is None,
        },
{
    let ghost lv = level(children@);
    proof {
        lemma_find_name(lv, name@);
    }
    let mut i: usize = 0;
    while i < children.len()
        invariant
            i <= children.len(),
            lv == level(children@),
            forall|k: int| 0 <= k < i ==> lv[k].0 != name@,
        decreases children.len() - i,
    {
        if same_text(&children[i].0, name) {
            proof {
                assert(lv[i as int].0 == children@[i as int].0@);
                lemma_find_name(lv, name@);
            }
            return Some(i);
        }
        i += 1;
    }
    None
}

/// The children at the first `n` segments of `path`.
pub fn children_at_prefix<'a>(root: &'a Vec<(String, ConfigNode)>, path: &Vec<String>, n: usize) -> (r: Option<&'a Vec<(String, ConfigNode)>>)
    requires
        n <= path@.len(),
    ensures
        match r {
            Some(ch) => children_at(level(root@), texts(path@.take(n as int))) == Some(level(ch@)),
            None => children_at(level(root@), texts(path@.take(n as int))) is None,
        },
{
    let mut current: &'a Vec<(String, ConfigNode)> = root;
    let mut i: usize = 0;
    proof {
        assert(texts(path@.take(n as int)).skip(0) =~= texts(path@.take(n as int)));
    }
    while i < n
        invariant
            i <= n <= path@.len(),
            children_at(level(root@), texts(path@.take(n as int))) == children_at(
                level(current@),
                texts(path@.take(n as int)).skip(i as int),
            ),
        decreases n - i,
    {
        let ghost p = texts(path@.take(n as int)).skip(i as int);
        proof {
            assert(p[0] == path@[i as int]@);
            assert(p.drop_first() =~= texts(path@.take(n as int)).skip(i + 1));
        }
        match position_of(current, &path[i]) {
            Some(idx) => {
                proof {
                    lemma_find_name(level(current@), path@[i as int]@);
                }
                match &current[idx].1 {
                    ConfigNode::Branch(children) => {
                        proof {
                            lemma_branch_model(children);
                        }
                        current = children;
                    },
                    _ => {
                        return None;
                    },
                }
            },
            None => {
                return None;
            },
        }
        i += 1;
    }
    proof {
        assert(texts(path@.take(n as int)).skip(n as int) =~= Seq::<Seq<char>>::empty());
    }
    Some(current)
}

/// The children at `path`.
pub fn get_children_at_path<'a>(root: &'a Vec<(String, ConfigNode)>, path: &Vec<String>) -> (r: Option<&'a Vec<(String, ConfigNode)>>)
    ensures
        match r {
            Some(ch) => children_at(level(root@), texts(path@)) == Some(level(ch@)),
            None => children_at(level(root@), texts(path@)) is None,
        },
{
    proof {
        assert(path@.take(path@.len() as int) =~= path@);
    }
    children_at_prefix(root, path, path.len())
}

/// The node named `name` among the children at the first `n` segments of `path`.
fn node_at_prefix<'a>(root: &'a Vec<(String, ConfigNode)>, path: &Vec<String>, n: usize, name: &String) -> (r: Option<&'a ConfigNode>)
    requires
        n <= path@.len(),
    ensures
        match r {
            Some(node) => node_at(level(root@), texts(path@.take(n as int)), name@) == Some(node.model()),
            None => node_at(level(root@), texts(path@.take(n as int)), name@) is None,
        },
{
    match children_at_prefix(root, path, n) {
        Some(children) => match position_of(children, name) {
            Some(i) => {
                proof {
                    lemma_find_name(level(children@), name@);
                    assert(level(children@)[i as int].1 == children@[i as int].1.model());
                }
                Some(&children[i].1)
            },
            None => None,
        },
        None => None,
    }
}

/// The node named `name` among the children at `path`.
pub fn get_node_at_path<'a>(root: &'a Vec<(String, ConfigNode)>, path: &Vec<String>, name: &String) -> (r: Option<&'a ConfigNode>)
    ensures
        match r {
            Some(node) => node_at(level(root@), texts(path@), name@) == Some(node.model()),
            None => node_at(level(root@), texts(path@), name@) is None,
        },
{
    proof {
        assert(path@.take(path@.len() as int) =~= path@);
    }
    node_at_prefix(root, path, path.len(), name)
}

/// The node at a full path.
pub fn lookup_node<'a>(root: &'a Vec<(String, ConfigNode)>, path: &Vec<String>) -> (r: Option<&'a ConfigNode>)
    ensures
        match r {
            Some(node) => lookup(level(root@), texts(path@)) == Some(node.model()),
            None => lookup(level(root@), texts(path@)) is None,
        },
{
    if path.len() == 0 {
        return None;
    }
    let n = path.len() - 1;
    proof {
        assert(texts(path@.take(n as int)) =~= texts(path@).drop_last());
    }
    node_at_prefix(root, path, n, &path[n])
}

// ---------------------------------------------------------------------------
// The tree as plain text
// ---------------------------------------------------------------------------

/// Every leaf in the tree has a short form.
pub open spec fn node_short_ok(n: Node) -> bool
    decreases n, 0nat,
{
    match n {
        Node::Branch(ch) => level_short_ok(ch),
        Node::Leaf(v) => short_ok(v),
        Node::Phantom => true,
    }
}

pub open spec fn level_short_ok(lv: Seq<(Seq<char>, Node)>) -> bool
    decreases lv, 0nat,
{
    if lv.len() == 0 {
        true
    } else {
        level_short_ok(lv.drop_last()) && node_short_ok(lv.last().1)
    }
}

/// The text lines for one node under `indent`: a branch as `name/` followed
/// by its children two spaces further in, a leaf as `name = value`, a
/// placeholder as `name = !`.
pub open spec fn node_text(name: Seq<char>, n: Node, indent: Seq<char>) -> Seq<Seq<char>>
    decreases n, 0nat,
{
    match n {
        Node::Branch(ch) => seq![indent + name + "/"@] + level_text(ch, indent + "  "@),
        Node::Leaf(v) => seq![indent + name + " = "@ + short_text(v)],
        Node::Phantom => seq![indent + name + " = !"@],
    }
}

/// The text lines for the entries of one level, in order.
pub open spec fn level_text(lv: Seq<(Seq<char>, Node)>, indent: Seq<char>) -> Seq<Seq<char>>
    decreases lv, 0nat,
{
    if lv.len() == 0 {
        seq![]
    } else {
        level_text(lv.drop_last(), indent) + node_text(lv.last().0, lv.last().1, indent)
    }
}

fn push_node_text(out: &mut Vec<String>, name: &String, node: &ConfigNode, indent: &String)
    requires
        node_short_ok(node.model()),
    ensures
        texts(final(out)@) == texts(old(out)@) + node_text(name@, node.model(), indent@),
    decreases node, 0nat,
{
    match node {
        ConfigNode::Branch(ch) => {
            proof {
                lemma_branch_model(ch);
            }
            let mut line = String::new();
            push_string(&mut line, indent);
            push_string(&mut line, name);
            line.append("/");
            out.push(line);
            let mut inner = String::new();
            push_string(&mut inner, indent);
            inner.append("  ");
            let ghost mid = texts(out@);
            push_level_text(out, ch, &inner);
            proof {
                assert(mid =~= texts(old(out)@) + seq![indent@ + name@ + "/"@]);
                assert(texts(out@) =~= texts(old(out)@) + node_text(name@, node.model(), indent@));
            }
        },
        ConfigNode::Leaf(v) => {
            let short = format_value_short(v);
            let mut line = String::new();
            push_string(&mut line, indent);
            push_string(&mut line, name);
            line.append(" = ");
            push_string(&mut line, &short);
            out.push(line);
            proof {
                assert(texts(out@) =~= texts(old(out)@) + node_text(name@, node.model(), indent@));
            }
        },
        ConfigNode::Phantom => {
            let mut line = String::new();
            push_string(&mut line, indent);
            push_string(&mut line, name);
            line.append(" = !");
            out.push(line);
            proof {
                assert(texts(out@) =~= texts(old(out)@) + node_text(name@, node.model(), indent@));
            }
        },
    }
}

fn push_level_text(out: &mut Vec<String>, children: &Vec<(String, ConfigNode)>, indent: &String)
    requires
        level_short_ok(level(children@)),
    ensures
        texts(final(out)@) == texts(old(out)@) + level_text(level(children@), indent@),
    decreases children, 0nat,
{
    let ghost lv = level(children@);
    let mut i: usize = 0;
    proof {
        assert(lv.take(0) =~= Seq::<(Seq<char>, Node)>::empty());
        assert(texts(out@) =~= texts(old(out)@) + level_text(lv.take(0), indent@));
    }
    while i < children.len()
        invariant
            i <= children.len(),
            lv == level(children@),
            level_short_ok(lv),
            texts(out@) == texts(old(out)@) + level_text(lv.take(i as int), indent@),
        decreases children.len() - i,
    {
        proof {
            lemma_level_short_ok(lv, i as int);
            assert(lv.take(i + 1).drop_last() =~= lv.take(i as int));
            assert(lv.take(i + 1).last() == (children@[i as int].0@, children@[i as int].1.model()));
        }
        push_node_text(out, &children[i].0, &children[i].1, indent);
        proof {
            assert(texts(out@) =~= texts(old(out)@) + level_text(lv.take(i + 1), indent@));
        }
        i += 1;
    }
    proof {
        assert(lv.take(children.len() as int) =~= lv);
    }
}

pub proof fn lemma_level_short_ok(lv: Seq<(Seq<char>, Node)>, i: int)
    requires
        level_short_ok(lv),
        0 <= i < lv.len(),
    ensures
        node_short_ok(lv[i].1),
    decreases lv.len(),
{
    if i < lv.len() - 1 {
        lemma_level_short_ok(lv.drop_last(), i);
    }
}

/// The tree as indented text, one line per node, for output that is not a terminal.
pub fn tree_text(children: &Vec<(String, ConfigNode)>, depth: usize) -> (out: Vec<String>)
    requires
        level_short_ok(level(children@)),
    ensures
        texts(out@) == level_text(level(children@), indent_text(depth as nat)),
{
    let mut indent = String::new();
    write_indent(&mut indent, depth);
    let mut out: Vec<String> = Vec::new();
    push_level_text(&mut out, children, &indent);
    proof {
        assert(texts(out@) =~= level_text(level(children@), indent_text(depth as nat)));
    }
    out
}

// ---------------------------------------------------------------------------
// Search
// ---------------------------------------------------------------------------

/// The paths of the nodes whose dotted path contains the query, ignoring
/// case, in the order of a walk that visits a node before its children.
pub open spec fn search_node(name: Seq<char>, n: Node, query: Seq<char>, prefix: Seq<Seq<char>>) -> Seq<Seq<Seq<char>>>
    decreases n, 0nat,
{
    let full = prefix.push(name);
    let own = if matches_query(join_dots(full), query) {
        seq![full]
    } else {
        seq![]
    };
    match n {
        Node::Branch(ch) => own + search_level(ch, query, full),
        _ => own,
    }
}

pub open spec fn search_level(lv: Seq<(Seq<char>, Node)>, query: Seq<char>, prefix: Seq<Seq<char>>) -> Seq<Seq<Seq<char>>>
    decreases lv, 0nat,
{
    if lv.len() == 0 {
        seq![]
    } else {
        search_level(lv.drop_last(), query, prefix) + search_node(lv.last().0, lv.last().1, query, prefix)
    }
}

/// The models of a list of paths.
pub open spec fn paths_model(v: Seq<Vec<String>>) -> Seq<Seq<Seq<char>>> {
    Seq::new(v.len(), |i: int| texts(v[i]@))
}

fn search_node_into(
    out: &mut Vec<Vec<String>>,
    name: &String,
    node: &ConfigNode,
    query: &String,
    lower_query: &String,
    prefix: &Vec<String>,
)
    requires
        lower_query@ == lowercase_of(query@),
    ensures
        paths_model(final(out)@) == paths_model(old(out)@) + search_node(name@, node.model(), query@, texts(prefix@)),
    decreases node, 0nat,
{
    let mut full = copy_strings(prefix);
    full.push(copy_string(name));
    let ghost fm = texts(full@);
    proof {
                assert(fm =~= texts(prefix@).push(name@));
    }
    let joined = join_path(&full);
    let lower = to_lowercase(&joined);
    if text_contains(&lower, lower_query) {
        out.push(copy_strings(&full));
    }
    let ghost mid = paths_model(out@);
    proof {
        let own = if matches_query(join_dots(fm), query@) {
            seq![fm]
        } else {
            seq![]
        };
        assert(mid =~= paths_model(old(out)@) + own) by {
            if matches_query(join_dots(fm), query@) {
                assert(texts(out@.last()@) =~= fm);
            }
        }
    }
    match node {
        ConfigNode::Branch(ch) => {
            proof {
                lemma_branch_model(ch);
            }
            search_level_into(out, ch, query, lower_query, &full);
        },
        _ => {},
    }
    proof {
        assert(paths_model(out@) =~= paths_model(old(out)@) + search_node(name@, node.model(), query@, texts(prefix@)));
    }
}

fn search_level_into(
    out: &mut Vec<Vec<String>>,
    children: &Vec<(String, ConfigNode)>,
    query: &String,
    lower_query: &String,
    prefix: &Vec<String>,
)
    requires
        lower_query@ == lowercase_of(query@),
    ensures
        paths_model(final(out)@) == paths_model(old(out)@) + search_level(level(children@), query@, texts(prefix@)),
    decreases children, 0nat,
{
    let ghost lv = level(children@);
    let mut i: usize = 0;
    proof {
        assert(lv.take(0) =~= Seq::<(Seq<char>, Node)>::empty());
        assert(paths_model(out@) =~= paths_model(old(out)@) + search_level(lv.take(0), query@, texts(prefix@)));
    }
    while i < children.len()
        invariant
            i <= children.len(),
            lv == level(children@),
            lower_query@ == lowercase_of(query@),
            paths_model(out@) == paths_model(old(out)@) + search_level(lv.take(i as int), query@, texts(prefix@)),
        decreases children.len() - i,
    {
        proof {
            assert(lv.take(i + 1).drop_last() =~= lv.take(i as int));
            assert(lv.take(i + 1).last() == (children@[i as int].0@, children@[i as int].1.model()));
        }
        search_node_into(out, &children[i].0, &children[i].1, query, lower_query, prefix);
        proof {
            assert(paths_model(out@) =~= paths_model(old(out)@) + search_level(lv.take(i + 1), query@, texts(prefix@)));
        }
        i += 1;
    }
    proof {
        assert(lv.take(children.len() as int) =~= lv);
    }
}

/// Every path under `prefix` whose dotted form contains `query`, ignoring
/// case; none for an empty query.
pub fn search_tree(root: &Vec<(String, ConfigNode)>, query: &String, prefix: &Vec<String>) -> (results: Vec<Vec<String>>)
    ensures
        paths_model(results@) == if query@.len() == 0 {
            seq![]
        } else {
            search_level(level(root@), query@, texts(prefix@))
        },
{
    let mut results: Vec<Vec<String>> = Vec::new();
    if query.as_str().unicode_len() == 0 {
        proof {
            assert(paths_model(results@) =~= Seq::<Seq<Seq<char>>>::empty());
        }
        return results;
    }
    let lower_query = to_lowercase(query);
    search_level_into(&mut results, root, query, &lower_query, prefix);
    proof {
        assert(paths_model(results@) =~= search_level(level(root@), query@, texts(prefix@)));
    }
    results
}

/// Every path that a search finds contains the query, ignoring case.
pub proof fn lemma_search_level_matches(lv: Seq<(Seq<char>, Node)>, query: Seq<char>, prefix: Seq<Seq<char>>)
    ensures
        forall|i: int|
            0 <= i < search_level(lv, query, prefix).len() ==> matches_query(
                join_dots(#[trigger] search_level(lv, query, prefix)[i]),
                query,
            ),
    decreases lv, 0nat,
{
    if lv.len() > 0 {
        lemma_search_level_matches(lv.drop_last(), query, prefix);
        lemma_search_node_matches(lv.last().0, lv.last().1, query, prefix);
        let a = search_level(lv.drop_last(), query, prefix);
        let b = search_node(lv.last().0, lv.last().1, query, prefix);
        assert forall|i: int| 0 <= i < (a + b).len() implies matches_query(join_dots(#[trigger] (a + b)[i]), query) by {
            if i < a.len() {
                assert((a + b)[i] == a[i]);
            } else {
                assert((a + b)[i] == b[i - a.len()]);
            }
        }
    }
}

pub proof fn lemma_search_node_matches(name: Seq<char>, n: Node, query: Seq<char>, prefix: Seq<Seq<char>>)
    ensures
        forall|i: int|
            0 <= i < search_node(name, n, query, prefix).len() ==> matches_query(
                join_dots(#[trigger] search_node(name, n, query, prefix)[i]),
                query,
            ),
    decreases n, 0nat,
{
    let full = prefix.push(name);
    let own: Seq<Seq<Seq<char>>> = if matches_query(join_dots(full), query) {
        seq![full]
    } else {
        seq![]
    };
    match n {
        Node::Branch(ch) => {
            lemma_search_level_matches(ch, query, full);
            let b = search_level(ch, query, full);
            assert forall|i: int| 0 <= i < (own + b).len() implies matches_query(join_dots(#[trigger] (own + b)[i]), query) by {
                if i < own.len() {
                    assert((own + b)[i] == own[i]);
                } else {
                    assert((own + b)[i] == b[i - own.len()]);
                }
            }
        },
        _ => {},
    }
}

proof fn lemma_search_level_has_node(lv: Seq<(Seq<char>, Node)>, query: Seq<char>, prefix: Seq<Seq<char>>, i: int, x: Seq<Seq<char>>)
    requires
        0 <= i < lv.len(),
        search_node(lv[i].0, lv[i].1, query, prefix).contains(x),
    ensures
        search_level(lv, query, prefix).contains(x),
    decreases lv.len(),
{
    let a = search_level(lv.drop_last(), query, prefix);
    let b = search_node(lv.last().0, lv.last().1, query, prefix);
    if i == lv.len() - 1 {
        let j = choose|j: int| 0 <= j < b.len() && b[j] == x;
        assert((a + b)[a.len() + j] == x);
    } else {
        assert(lv.drop_last()[i] == lv[i]);
        lemma_search_level_has_node(lv.drop_last(), query, prefix, i, x);
        let j = choose|j: int| 0 <= j < a.len() && a[j] == x;
        assert((a + b)[j] == x);
    }
}

/// A search finds every node of the tree, at any depth, whose dotted path
/// (below `prefix`) contains the query, ignoring case: the path of each node
/// that `path` leads to is among the results.
pub proof fn lemma_search_finds_every_match(lv: Seq<(Seq<char>, Node)>, query: Seq<char>, prefix: Seq<Seq<char>>, path: Seq<Seq<char>>)
    requires
        path.len() >= 1,
        lookup(lv, path) is Some,
        matches_query(join_dots(prefix + path), query),
    ensures
        search_level(lv, query, prefix).contains(prefix + path),
    decreases path.len(),
{
    let x = path[0];
    lemma_find_name(lv, x);
    if path.len() == 1 {
        assert(path.drop_last() =~= Seq::<Seq<char>>::empty());
        assert(path.last() == x);
        let i = find_name(lv, x)->0;
        let full = prefix.push(x);
        assert(prefix + path =~= full);
        assert(search_node(lv[i].0, lv[i].1, query, prefix)[0] == full);
        lemma_search_level_has_node(lv, query, prefix, i, prefix + path);
    } else {
        let d = path.drop_last();
        assert(d[0] == x);
        assert(d.drop_first() =~= path.drop_first().drop_last());
        let i = find_name(lv, x)->0;
        match lv[i].1 {
            Node::Branch(ch) => {
                let rest = path.drop_first();
                assert(rest.last() == path.last());
                assert(lookup(ch, rest) == lookup(lv, path));
                let full = prefix.push(x);
                assert(full + rest =~= prefix + path);
                lemma_search_finds_every_match(ch, query, full, rest);
                let b = search_level(ch, query, full);
                let own: Seq<Seq<Seq<char>>> = if matches_query(join_dots(full), query) {
                    seq![full]
                } else {
                    seq![]
                };
                let j = choose|j: int| 0 <= j < b.len() && b[j] == prefix + path;
                assert(search_node(lv[i].0, lv[i].1, query, prefix) == own + b);
                assert((own + b)[own.len() + j] == prefix + path);
                lemma_search_level_has_node(lv, query, prefix, i, prefix + path);
            },
            _ => {},
        }
    }
}

} // verus!
