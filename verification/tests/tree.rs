use nixos_config::deps::build_deps_index;
use nixos_config::json::JsonValue;
use nixos_config::tree::{
    build_config_tree, build_root_children, get_children_at_path, get_node_at_path, lookup_node, search_tree,
    sort_branches_first, tree_text, ConfigNode,
};
use nixos_config::tree_diff::{
    build_diff_context, build_union_tree, filter_unchanged_tree, get_diff_tag, get_tag, DiffTag,
};
use nixos_config::tree_edit::{ensure_path_exists, insert_phantom_nodes, sort_tree_recursive};

fn s(x: &str) -> String {
    x.to_string()
}

fn obj(entries: Vec<(&str, JsonValue)>) -> JsonValue {
    JsonValue::Object(entries.into_iter().map(|(k, v)| (k.to_string(), v)).collect())
}

fn num(n: &str) -> JsonValue {
    JsonValue::Number(n.to_string())
}

fn strs(v: &[&str]) -> Vec<String> {
    v.iter().map(|x| x.to_string()).collect()
}

fn render(children: &Vec<(String, ConfigNode)>) -> Vec<String> {
    tree_text(children, 0)
}

fn sample() -> JsonValue {
    obj(vec![
        ("zeta", num("1")),
        ("boot", obj(vec![("loader", obj(vec![("timeout", num("5"))])), ("kernel", JsonValue::Str(s("linux")))])),
        ("alpha", JsonValue::Bool(true)),
        ("empty", obj(vec![])),
        ("networking", obj(vec![("hostName", JsonValue::Str(s("box")))])),
    ])
}

#[test]
fn tree_sorts_branches_first() {
    let root = build_root_children(&sample());
    assert_eq!(
        render(&root),
        strs(&[
            "boot/",
            "  loader/",
            "    timeout = 5",
            "  kernel = \"linux\"",
            "networking/",
            "  hostName = \"box\"",
            "alpha = true",
            "empty = {}",
            "zeta = 1",
        ])
    );
}

#[test]
fn tree_of_scalar_document() {
    let root = build_root_children(&num("3"));
    assert_eq!(render(&root), strs(&["config = 3"]));
    assert!(matches!(build_config_tree(&obj(vec![])), ConfigNode::Leaf(_)));
}

#[test]
fn tree_text_indents_by_depth() {
    let root = build_root_children(&obj(vec![("a", num("1"))]));
    assert_eq!(tree_text(&root, 2), strs(&["    a = 1"]));
}

#[test]
fn sorting_is_stable_for_equal_names() {
    let mut v = vec![(s("b"), ConfigNode::Phantom), (s("a"), ConfigNode::Leaf(num("1"))), (s("c"), ConfigNode::Branch(vec![]))];
    sort_branches_first(&mut v);
    let names: Vec<String> = v.iter().map(|(n, _)| n.clone()).collect();
    assert_eq!(names, strs(&["c", "a", "b"]));
}

#[test]
fn paths_lead_to_nodes() {
    let root = build_root_children(&sample());
    let boot = get_children_at_path(&root, &strs(&["boot"])).unwrap();
    assert_eq!(boot.len(), 2);
    assert!(get_children_at_path(&root, &strs(&["alpha"])).is_none());
    assert!(get_children_at_path(&root, &strs(&["missing"])).is_none());
    assert!(get_children_at_path(&root, &strs(&[])).is_some());
    assert!(matches!(get_node_at_path(&root, &strs(&["boot", "loader"]), &s("timeout")), Some(ConfigNode::Leaf(_))));
    assert!(matches!(lookup_node(&root, &strs(&["boot", "loader"])), Some(ConfigNode::Branch(_))));
    assert!(lookup_node(&root, &strs(&[])).is_none());
    assert!(lookup_node(&root, &strs(&["boot", "nothing"])).is_none());
}

#[test]
fn search_finds_paths_ignoring_case() {
    let root = build_root_children(&sample());
    let found = search_tree(&root, &s("LOADER"), &vec![]);
    assert_eq!(found, vec![strs(&["boot", "loader"]), strs(&["boot", "loader", "timeout"])]);
    assert!(search_tree(&root, &s(""), &vec![]).is_empty());
    let found = search_tree(&root, &s("o"), &strs(&["top"]));
    assert_eq!(found[0], strs(&["top", "boot"]));
}

#[test]
fn ensure_adds_missing_paths() {
    let mut root = build_root_children(&sample());
    ensure_path_exists(&mut root, &strs(&["boot", "loader", "grub", "enable"]));
    ensure_path_exists(&mut root, &strs(&["alpha", "inner"]));
    ensure_path_exists(&mut root, &strs(&["newtop"]));
    assert!(matches!(lookup_node(&root, &strs(&["boot", "loader", "grub", "enable"])), Some(ConfigNode::Phantom)));
    assert!(matches!(lookup_node(&root, &strs(&["alpha"])), Some(ConfigNode::Branch(_))));
    assert!(matches!(lookup_node(&root, &strs(&["newtop"])), Some(ConfigNode::Phantom)));
}

#[test]
fn phantoms_for_dependency_paths() {
    let mut root = build_root_children(&obj(vec![("b", num("1")), ("a", obj(vec![("x", num("2")), ("y", num("3"))]))]));
    let listing = JsonValue::Array(vec![obj(vec![
        ("accessor", JsonValue::Array(vec![JsonValue::Str(s("a")), JsonValue::Str(s("x"))])),
        ("accessed", JsonValue::Array(vec![JsonValue::Str(s("c")), JsonValue::Str(s("d"))])),
    ])]);
    let d = build_deps_index(&listing);
    insert_phantom_nodes(&mut root, &d);
    assert_eq!(
        render(&root),
        strs(&["a/", "  x = 2", "  y = 3", "c/", "  d = !", "b = 1"])
    );
}

#[test]
fn recursive_sort_orders_every_level() {
    let mut root = vec![
        (s("z"), ConfigNode::Leaf(num("1"))),
        (s("m"), ConfigNode::Branch(vec![(s("q"), ConfigNode::Phantom), (s("p"), ConfigNode::Branch(vec![]))])),
    ];
    sort_tree_recursive(&mut root);
    assert_eq!(render(&root), strs(&["m/", "  p/", "  q = !", "z = 1"]));
}

#[test]
fn union_tree_keeps_every_name() {
    let old = build_root_children(&obj(vec![("a", num("1")), ("gone", num("2")), ("s", obj(vec![("x", num("1")), ("y", num("1"))]))]));
    let new = build_root_children(&obj(vec![("a", num("9")), ("added", num("3")), ("s", obj(vec![("x", num("1")), ("z", num("1"))]))]));
    let u = build_union_tree(&old, &new);
    assert_eq!(
        render(&u),
        strs(&["s/", "  x = 1", "  y = 1", "  z = 1", "a = 9", "added = 3", "gone = 2"])
    );
}

#[test]
fn diff_context_tags() {
    let old = build_root_children(&obj(vec![("a", num("1")), ("gone", num("2")), ("s", obj(vec![("x", num("1")), ("y", num("1"))]))]));
    let new = build_root_children(&obj(vec![("a", num("9")), ("added", num("3")), ("s", obj(vec![("x", num("1")), ("z", num("1"))]))]));
    let empty = JsonValue::Array(vec![]);
    let ctx = build_diff_context(&old, &new, build_deps_index(&empty), build_deps_index(&empty));
    assert_eq!(get_tag(&ctx.tags, &s("a")), Some(DiffTag::Modified));
    assert_eq!(get_tag(&ctx.tags, &s("gone")), Some(DiffTag::Removed));
    assert_eq!(get_tag(&ctx.tags, &s("added")), Some(DiffTag::Added));
    assert_eq!(get_tag(&ctx.tags, &s("s.x")), Some(DiffTag::Unchanged));
    assert_eq!(get_tag(&ctx.tags, &s("s.y")), Some(DiffTag::Removed));
    assert_eq!(get_tag(&ctx.tags, &s("s.z")), Some(DiffTag::Added));
    assert_eq!(get_tag(&ctx.tags, &s("s")), Some(DiffTag::Modified));
    assert_eq!(get_tag(&ctx.value_tags, &s("a")), Some(DiffTag::Modified));
    assert_eq!(ctx.old_values.len(), 4);
    let u = build_union_tree(&old, &new);
    let filtered = filter_unchanged_tree(&u, &ctx.tags, &vec![]);
    assert_eq!(render(&filtered), strs(&["s/", "  y = 1", "  z = 1", "a = 9", "added = 3", "gone = 2"]));
    let s_node = ConfigNode::Branch(vec![]);
    assert_eq!(get_diff_tag(&ctx, &vec![], &s("s"), &s_node), DiffTag::Modified);
    assert_eq!(get_diff_tag(&ctx, &vec![], &s("nothing"), &s_node), DiffTag::Unchanged);
}

#[test]
fn diff_context_counts_dependency_changes() {
    let old = build_root_children(&obj(vec![("a", num("1"))]));
    let new = build_root_children(&obj(vec![("a", num("1"))]));
    let old_deps = JsonValue::Array(vec![obj(vec![
        ("accessor", JsonValue::Array(vec![JsonValue::Str(s("a"))])),
        ("accessed", JsonValue::Array(vec![JsonValue::Str(s("b"))])),
    ])]);
    let ctx = build_diff_context(&old, &new, build_deps_index(&old_deps), build_deps_index(&JsonValue::Array(vec![])));
    assert_eq!(get_tag(&ctx.tags, &s("a")), Some(DiffTag::Modified));
    assert_eq!(get_tag(&ctx.value_tags, &s("a")), Some(DiffTag::Unchanged));
}

#[test]
fn value_tags_match_full_tags_under_one_index() {
    let old = build_root_children(&obj(vec![("a", num("1")), ("b", obj(vec![("x", num("1")), ("y", num("2"))])), ("c", num("3"))]));
    let new = build_root_children(&obj(vec![("a", num("1")), ("b", obj(vec![("x", num("5"))])), ("d", num("4"))]));
    let listing = JsonValue::Array(vec![obj(vec![
        ("accessor", JsonValue::Array(vec![JsonValue::Str(s("a"))])),
        ("accessed", JsonValue::Array(vec![JsonValue::Str(s("b")), JsonValue::Str(s("x"))])),
    ])]);
    let ctx = build_diff_context(&old, &new, build_deps_index(&listing), build_deps_index(&listing));
    for key in ["a", "b", "b.x", "b.y", "c", "d"] {
        assert_eq!(get_tag(&ctx.tags, &s(key)), get_tag(&ctx.value_tags, &s(key)), "{}", key);
    }
    assert_eq!(ctx.tags.len(), ctx.value_tags.len());
    assert_eq!(get_tag(&ctx.tags, &s("a")), Some(DiffTag::Unchanged));
    assert_eq!(get_tag(&ctx.tags, &s("b")), Some(DiffTag::Modified));
}

#[test]
fn diff_tags_follow_each_path() {
    let old = build_root_children(&obj(vec![("a", obj(vec![("x", num("1"))])), ("b", num("1")), ("e", obj(vec![("f", num("1"))]))]));
    let new = build_root_children(&obj(vec![("a", num("5")), ("c", obj(vec![("d", num("1"))])), ("e", obj(vec![("f", num("1"))]))]));
    let empty = JsonValue::Array(vec![]);
    let ctx = build_diff_context(&old, &new, build_deps_index(&empty), build_deps_index(&empty));
    assert_eq!(get_tag(&ctx.tags, &s("a")), Some(DiffTag::Modified));
    assert_eq!(get_tag(&ctx.tags, &s("a.x")), None);
    assert_eq!(get_tag(&ctx.tags, &s("b")), Some(DiffTag::Removed));
    assert_eq!(get_tag(&ctx.tags, &s("c")), Some(DiffTag::Added));
    assert_eq!(get_tag(&ctx.tags, &s("c.d")), Some(DiffTag::Added));
    assert_eq!(get_tag(&ctx.tags, &s("e")), Some(DiffTag::Unchanged));
    assert_eq!(get_tag(&ctx.tags, &s("e.f")), Some(DiffTag::Unchanged));
    assert_eq!(get_tag(&ctx.tags, &s("z")), None);
}

#[test]
fn every_index_path_can_be_walked() {
    let mut root = build_root_children(&obj(vec![("b", num("1")), ("a", obj(vec![("x", num("2"))]))]));
    let listing = JsonValue::Array(vec![
        obj(vec![
            ("accessor", JsonValue::Array(vec![JsonValue::Str(s("a")), JsonValue::Str(s("x"))])),
            ("accessed", JsonValue::Array(vec![JsonValue::Str(s("b")), JsonValue::Str(s("c"))])),
        ]),
        obj(vec![
            ("accessor", JsonValue::Array(vec![JsonValue::Str(s("q"))])),
            ("accessed", JsonValue::Array(vec![JsonValue::Str(s("a")), JsonValue::Str(s("x")), JsonValue::Str(s("z"))])),
        ]),
    ]);
    let d = build_deps_index(&listing);
    insert_phantom_nodes(&mut root, &d);
    for path in [vec!["a", "x"], vec!["b", "c"], vec!["q"], vec!["a", "x", "z"]] {
        assert!(lookup_node(&root, &strs(&path)).is_some(), "{:?}", path);
    }
    assert!(matches!(lookup_node(&root, &strs(&["b"])), Some(ConfigNode::Branch(_))));
}

#[test]
fn filtering_twice_is_filtering_once() {
    let root = build_root_children(&sample());
    let tags = vec![(s("boot.loader.timeout"), DiffTag::Modified), (s("zeta"), DiffTag::Unchanged), (s("alpha"), DiffTag::Added)];
    let once = filter_unchanged_tree(&root, &tags, &Vec::new());
    let twice = filter_unchanged_tree(&once, &tags, &Vec::new());
    assert_eq!(render(&once), render(&twice));
    assert_eq!(render(&once), strs(&["boot/", "  loader/", "    timeout = 5", "alpha = true"]));
}
