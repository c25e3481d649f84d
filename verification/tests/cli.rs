use nixos_config::browse::MillerState;
use nixos_config::cli::{config_or_default, default_config, diff_args, use_color, writes_to_stdout, wrote_note, ColorMode};
use nixos_config::frame::settle_cursor;
use nixos_config::json::JsonValue;
use nixos_config::tree::build_root_children;

fn s(x: &str) -> String {
    x.to_string()
}

#[test]
fn missing_config_means_the_running_system() {
    assert_eq!(default_config(), "/var/run/current-system");
    assert_eq!(config_or_default(&None), "/var/run/current-system");
    assert_eq!(config_or_default(&Some(s("/nix/store/abc"))), "/nix/store/abc");
}

#[test]
fn diff_arguments_pair_up() {
    assert_eq!(diff_args(&Some(s("old")), &Some(s("new"))), Ok((s("old"), s("new"))));
    assert_eq!(diff_args(&Some(s("new")), &None), Ok((s("/var/run/current-system"), s("new"))));
    assert_eq!(diff_args(&None, &None), Err(s("diff requires at least one argument (NEW config)")));
}

#[test]
fn color_follows_the_mode() {
    assert!(use_color(ColorMode::Always, false));
    assert!(!use_color(ColorMode::Never, true));
    assert!(use_color(ColorMode::Auto, true));
    assert!(!use_color(ColorMode::Auto, false));
}

#[test]
fn saving_to_standard_output() {
    assert!(writes_to_stdout(&s("-")));
    assert!(writes_to_stdout(&s("/dev/stdout")));
    assert!(!writes_to_stdout(&s("out.nix")));
    assert_eq!(wrote_note(&s("out.nix")), "Wrote out.nix");
}

#[test]
fn cursor_settles_on_the_last_entry() {
    let root = build_root_children(&JsonValue::Object(vec![
        (s("a"), JsonValue::Bool(true)),
        (s("b"), JsonValue::Bool(false)),
    ]));
    let mut state = MillerState::new();
    state.cursor = 7;
    assert_eq!(settle_cursor(&mut state, &root), 2);
    assert_eq!(state.cursor, 1);
    state.path = vec![s("nowhere")];
    assert_eq!(settle_cursor(&mut state, &root), 0);
    assert_eq!(state.cursor, 0);
}
