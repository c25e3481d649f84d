use nixos_config::deps::{
    build_deps_index, compute_dep_diff_tags, deps_match, merge_deps_indices, DepsIndex,
};
use nixos_config::json::JsonValue;
use nixos_config::tree_diff::DiffTag;

fn s(x: &str) -> String {
    x.to_string()
}

fn path(parts: &[&str]) -> JsonValue {
    JsonValue::Array(parts.iter().map(|p| JsonValue::Str(s(p))).collect())
}

fn edge(from: &[&str], to: &[&str]) -> JsonValue {
    JsonValue::Object(vec![(s("accessor"), path(from)), (s("accessed"), path(to))])
}

fn list(d: Option<&Vec<String>>) -> Vec<String> {
    d.cloned().unwrap_or_default()
}

#[test]
fn index_from_listing() {
    let listing = JsonValue::Array(vec![
        edge(&["a", "x"], &["b", "y"]),
        edge(&["a", "x"], &["c"]),
        edge(&["a", "x"], &["b", "y"]),
        edge(&["c"], &["b", "y"]),
        JsonValue::Object(vec![(s("accessor"), path(&["lonely"]))]),
        JsonValue::Null,
    ]);
    let d = build_deps_index(&listing);
    assert_eq!(list(d.dependencies_of(&s("a.x"))), vec![s("b.y"), s("c")]);
    assert_eq!(list(d.dependencies_of(&s("c"))), vec![s("b.y")]);
    assert_eq!(list(d.dependents_of(&s("b.y"))), vec![s("a.x"), s("c")]);
    assert_eq!(list(d.dependents_of(&s("c"))), vec![s("a.x")]);
    assert!(d.dependencies_of(&s("lonely")).is_none());
    assert!(d.dependencies_of(&s("b.y")).is_none());
}

#[test]
fn index_from_non_list() {
    let d = build_deps_index(&JsonValue::Null);
    assert!(d.dependencies.is_empty());
    assert!(d.dependents.is_empty());
}

#[test]
fn index_skips_non_string_segments() {
    let listing = JsonValue::Array(vec![JsonValue::Object(vec![
        (s("accessor"), JsonValue::Array(vec![JsonValue::Str(s("a")), JsonValue::Null, JsonValue::Str(s("b"))])),
        (s("accessed"), path(&["c"])),
    ])]);
    let d = build_deps_index(&listing);
    assert_eq!(list(d.dependencies_of(&s("a.b"))), vec![s("c")]);
}

#[test]
fn merge_unites_edges() {
    let a = build_deps_index(&JsonValue::Array(vec![edge(&["p"], &["q"]), edge(&["p"], &["z"])]));
    let b = build_deps_index(&JsonValue::Array(vec![edge(&["p"], &["a"]), edge(&["p"], &["q"]), edge(&["r"], &["q"])]));
    let m = merge_deps_indices(a, b);
    assert_eq!(list(m.dependencies_of(&s("p"))), vec![s("a"), s("q"), s("z")]);
    assert_eq!(list(m.dependencies_of(&s("r"))), vec![s("q")]);
    assert_eq!(list(m.dependents_of(&s("q"))), vec![s("p"), s("r")]);
}

#[test]
fn matching_deps() {
    let a = build_deps_index(&JsonValue::Array(vec![edge(&["p"], &["q"])]));
    let b = build_deps_index(&JsonValue::Array(vec![edge(&["p"], &["q"])]));
    let c = build_deps_index(&JsonValue::Array(vec![edge(&["p"], &["r"])]));
    assert!(deps_match(&a, &b, "p"));
    assert!(deps_match(&a, &b, "q"));
    assert!(deps_match(&a, &c, "nothing"));
    assert!(!deps_match(&a, &c, "p"));
    assert!(!deps_match(&a, &c, "q"));
    assert!(deps_match(&DepsIndex::new(), &DepsIndex::new(), "p"));
}

#[test]
fn dependency_tags() {
    let items = vec![s("a"), s("b"), s("c")];
    let old = vec![s("a"), s("c")];
    let new = vec![s("b"), s("c")];
    assert_eq!(
        compute_dep_diff_tags(&items, Some(&old), Some(&new)),
        vec![DiffTag::Removed, DiffTag::Added, DiffTag::Unchanged]
    );
    assert_eq!(
        compute_dep_diff_tags(&items, None, Some(&new)),
        vec![DiffTag::Unchanged, DiffTag::Added, DiffTag::Added]
    );
    assert_eq!(compute_dep_diff_tags(&items, None, None), vec![DiffTag::Unchanged; 3]);
}

#[test]
fn merge_in_either_order_is_the_same() {
    let first = || JsonValue::Array(vec![edge(&["p"], &["q"]), edge(&["p"], &["z"]), edge(&["x"], &["y"])]);
    let second = || JsonValue::Array(vec![edge(&["p"], &["a"]), edge(&["p"], &["q"]), edge(&["r"], &["q"])]);
    let ab = merge_deps_indices(build_deps_index(&first()), build_deps_index(&second()));
    let ba = merge_deps_indices(build_deps_index(&second()), build_deps_index(&first()));
    for key in ["p", "q", "r", "x", "y", "z", "a", "none"] {
        assert_eq!(list(ab.dependencies_of(&s(key))), list(ba.dependencies_of(&s(key))), "{}", key);
        assert_eq!(list(ab.dependents_of(&s(key))), list(ba.dependents_of(&s(key))), "{}", key);
        assert_eq!(ab.dependencies_of(&s(key)).is_some(), ba.dependencies_of(&s(key)).is_some());
        assert_eq!(ab.dependents_of(&s(key)).is_some(), ba.dependents_of(&s(key)).is_some());
    }
}
