use nixos_config::json::JsonValue;
use nixos_config::paths::{join_path, split_path, text_contains};
use nixos_config::results::render_search_result_line;
use nixos_config::values::{format_value_full, format_value_short, push_decimal};

fn s(x: &str) -> String {
    x.to_string()
}

#[test]
fn short_scalars() {
    assert_eq!(format_value_short(&JsonValue::Null), "null");
    assert_eq!(format_value_short(&JsonValue::Bool(true)), "true");
    assert_eq!(format_value_short(&JsonValue::Bool(false)), "false");
    assert_eq!(format_value_short(&JsonValue::Number(s("3.5"))), "3.5");
}

#[test]
fn short_strings() {
    assert_eq!(format_value_short(&JsonValue::Str(s("a\"b\\c"))), "\"a\\\"b\\\\c\"");
    assert_eq!(format_value_short(&JsonValue::Str(s("two\nlines"))), "''...''");
    let long = "x".repeat(41);
    assert_eq!(format_value_short(&JsonValue::Str(long)), format!("\"{}...\"", "x".repeat(37)));
    let forty = "y".repeat(40);
    assert_eq!(format_value_short(&JsonValue::Str(forty.clone())), format!("\"{}\"", forty));
}

#[test]
fn short_collections() {
    assert_eq!(format_value_short(&JsonValue::Array(vec![])), "[]");
    assert_eq!(
        format_value_short(&JsonValue::Array(vec![JsonValue::Null, JsonValue::Null, JsonValue::Null])),
        "[3]"
    );
    assert_eq!(format_value_short(&JsonValue::Object(vec![])), "{}");
    let twelve: Vec<(String, JsonValue)> = (0..12).map(|i| (format!("k{}", i), JsonValue::Null)).collect();
    assert_eq!(format_value_short(&JsonValue::Object(twelve)), "{12}");
}

#[test]
fn full_renderings() {
    assert_eq!(format_value_full(&JsonValue::Array(vec![])), vec![s("[ ]")]);
    assert_eq!(format_value_full(&JsonValue::Object(vec![])), vec![s("{ }")]);
    assert_eq!(
        format_value_full(&JsonValue::Array(vec![JsonValue::Bool(true), JsonValue::Number(s("7"))])),
        vec![s("["), s("  true"), s("  7"), s("]")]
    );
    assert_eq!(
        format_value_full(&JsonValue::Object(vec![(s("a"), JsonValue::Str(s("x")))])),
        vec![s("{"), s("  a = \"x\";"), s("}")]
    );
    assert_eq!(
        format_value_full(&JsonValue::Str(s("one\ntwo"))),
        vec![s("''"), s("  one"), s("  two"), s("''")]
    );
    let long = "z".repeat(50);
    assert_eq!(format_value_full(&JsonValue::Str(long.clone())), vec![format!("\"{}\"", long)]);
}

#[test]
fn decimals() {
    let mut b = String::new();
    push_decimal(&mut b, 0);
    b.push(' ');
    push_decimal(&mut b, 1234567);
    assert_eq!(b, "0 1234567");
}

#[test]
fn dotted_paths() {
    let segs = vec![s("services"), s("openssh"), s("enable")];
    assert_eq!(join_path(&segs), "services.openssh.enable");
    assert_eq!(split_path("services.openssh.enable"), segs);
    assert_eq!(split_path(""), vec![s("")]);
    assert_eq!(split_path("a..b"), vec![s("a"), s(""), s("b")]);
    assert_eq!(join_path(&split_path("x.y.")), "x.y.");
}

#[test]
fn substrings_and_case() {
    assert!(text_contains(&s("networking.hostName"), &s("host")));
    assert!(!text_contains(&s("networking.hostName"), &s("Host")));
    assert!(text_contains(&s("abc"), &s("")));
    assert!(!text_contains(&s("ab"), &s("abc")));
    let line = render_search_result_line(&vec![s("HOSTNAME")], &s("name"), false, 40, None, None);
    assert_eq!(line.iter().map(|p| p.text.clone()).collect::<Vec<_>>(), vec![s("? "), s("HOST"), s("NAME")]);
}
