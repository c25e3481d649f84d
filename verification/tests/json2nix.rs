use nixos_config::json::JsonValue;
use nixos_config::json2nix::{convert, nix_escape, nix_escape_indented, quote_key};

fn obj(entries: Vec<(&str, JsonValue)>) -> JsonValue {
    JsonValue::Object(entries.into_iter().map(|(k, v)| (k.to_string(), v)).collect())
}

fn num(n: &str) -> JsonValue {
    JsonValue::Number(n.to_string())
}

fn text(s: &str) -> JsonValue {
    JsonValue::Str(s.to_string())
}

#[test]
fn simple_flat() {
    let v = obj(vec![("a", JsonValue::Bool(true)), ("b", num("42"))]);
    let out = convert(&v, false);
    assert!(out.contains("a = true;"));
    assert!(out.contains("b = 42;"));
}

#[test]
fn single_key_collapse() {
    let v = obj(vec![("services", obj(vec![("openssh", obj(vec![("enable", JsonValue::Bool(true))]))]))]);
    let out = convert(&v, false);
    assert!(out.contains("services.openssh.enable = true;"));
}

#[test]
fn multi_key_braces() {
    let v = obj(vec![("boot", obj(vec![("a", num("1")), ("b", num("2"))]))]);
    let out = convert(&v, false);
    assert!(out.contains("boot = {"));
    assert!(out.contains("a = 1;"));
    assert!(out.contains("b = 2;"));
}

#[test]
fn empty_object() {
    let v = obj(vec![]);
    assert_eq!(convert(&v, false), "{ }\n");
}

#[test]
fn string_escaping() {
    let v = obj(vec![("key", text("hello \"world\""))]);
    let out = convert(&v, false);
    assert!(out.contains("\"hello \\\"world\\\"\""));
}

#[test]
fn multiline_string() {
    let v = obj(vec![("key", text("line1\nline2"))]);
    let out = convert(&v, false);
    assert!(out.contains("''"));
}

#[test]
fn array_values() {
    let v = obj(vec![("list", JsonValue::Array(vec![num("1"), num("2"), num("3")]))]);
    let out = convert(&v, false);
    assert!(out.contains("["));
    assert!(out.contains("1"));
    assert!(out.contains("]"));
}

#[test]
fn flat_mode_no_braces() {
    let v = obj(vec![("boot", obj(vec![("a", num("1")), ("b", num("2"))]))]);
    let out = convert(&v, true);
    assert!(out.contains("boot.a = 1;"));
    assert!(out.contains("boot.b = 2;"));
    assert!(!out.contains("boot = {"));
}

#[test]
fn flat_mode_deep_nesting() {
    let v = obj(vec![(
        "services",
        obj(vec![("openssh", obj(vec![("enable", JsonValue::Bool(true)), ("port", num("22"))]))]),
    )]);
    let out = convert(&v, true);
    assert!(out.contains("services.openssh.enable = true;"));
    assert!(out.contains("services.openssh.port = 22;"));
    assert!(!out.contains("= {"));
}

#[test]
fn convert_exact_nested_document() {
    let v = obj(vec![
        ("boot", obj(vec![("a", num("1")), ("b", JsonValue::Null)])),
        ("list", JsonValue::Array(vec![text("x"), obj(vec![])])),
        ("x", JsonValue::Array(vec![])),
    ]);
    assert_eq!(
        convert(&v, false),
        "{\n  boot = {\n    a = 1;\n    b = null;\n  };\n  list = [\n    \"x\"\n    { }\n  ];\n  x = [ ];\n}\n"
    );
    assert_eq!(
        convert(&v, true),
        "{\n  boot.a = 1;\n  boot.b = null;\n  list = [\n    \"x\"\n    { }\n  ];\n  x = [ ];\n}\n"
    );
}

#[test]
fn convert_multiline_exact() {
    let v = obj(vec![("key", text("line1\r\nli$ne2\n"))]);
    assert_eq!(convert(&v, false), "{\n  key = ''\n    line1\n    li''$ne2\n  '';\n}\n");
}

#[test]
fn convert_scalar_top_level() {
    assert_eq!(convert(&num("3"), true), "3\n");
    assert_eq!(convert(&JsonValue::Bool(false), false), "false\n");
}

#[test]
fn flat_mode_empty_nested_object() {
    let v = obj(vec![("a", obj(vec![("b", obj(vec![]))]))]);
    assert_eq!(convert(&v, true), "{\n  a.b = { };\n}\n");
    assert_eq!(convert(&v, false), "{\n  a.b = { };\n}\n");
}

#[test]
fn escape_all_specials() {
    assert_eq!(nix_escape("a\\b\"c\nd\te\rf${g}$h"), "a\\\\b\\\"c\\nd\\te\\rf\\${g}$h");
    assert_eq!(nix_escape("${${"), "\\${\\${");
}

#[test]
fn escape_indented_cases() {
    assert_eq!(nix_escape_indented("a$b"), "a''$b");
    assert_eq!(nix_escape_indented("it''s $x"), "${\"it''s $x\" }");
    assert_eq!(nix_escape_indented("x${y}"), "x''${y}");
    assert_eq!(nix_escape_indented("'$"), "'${\"$\"}");
    assert_eq!(nix_escape_indented("'${a}"), "'${\"$\"}{a}");
}

#[test]
fn quote_key_cases() {
    assert_eq!(quote_key("enable"), "enable");
    assert_eq!(quote_key("_a-1"), "_a-1");
    assert_eq!(quote_key("1abc"), "\"1abc\"");
    assert_eq!(quote_key(""), "\"\"");
    assert_eq!(quote_key("a.b"), "\"a.b\"");
    assert_eq!(quote_key("x\"y"), "\"x\\\"y\"");
}

#[test]
fn single_entry_chain_becomes_one_binding() {
    let v = obj(vec![("x", obj(vec![("y", obj(vec![("z", num("1"))]))])), ("w", obj(vec![("p.q", obj(vec![("a", num("1")), ("b", num("2"))]))]))]);
    let out = convert(&v, false);
    assert!(out.contains("  x.y.z = 1;\n"));
    assert!(out.contains("  w.\"p.q\" = {\n    a = 1;\n    b = 2;\n  };\n"));
}
