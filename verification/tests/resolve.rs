use nixos_config::json::JsonValue;
use nixos_config::resolve::{combined_from_files, combined_from_value, nix_eval_args, plan_resolve, Plan, Wanted};

fn s(x: &str) -> String {
    x.to_string()
}

#[test]
fn directory_plans() {
    match plan_resolve("/run/current-system", true, Wanted::Values { explicit: true }) {
        Ok(Plan::ReadFile { name }) => assert_eq!(name, "tracking-explicit.json"),
        _ => panic!("expected a file"),
    }
    match plan_resolve("/x", true, Wanted::Combined { explicit: false }) {
        Ok(Plan::ReadFile { name }) => assert_eq!(name, "tracking.json"),
        _ => panic!("expected a file"),
    }
    match plan_resolve("/x", true, Wanted::Deps) {
        Ok(Plan::ReadFile { name }) => assert_eq!(name, "tracking-deps.json"),
        _ => panic!("expected a file"),
    }
}

#[test]
fn flake_plans() {
    match plan_resolve(".#host", false, Wanted::Values { explicit: false }) {
        Ok(Plan::Evaluate { header, refs, apply, failure }) => {
            assert_eq!(header, "Evaluating .#host...");
            assert_eq!(
                refs,
                vec![
                    s(".#nixosConfigurations.host.dependencyTracking.configValues"),
                    s(".#host.dependencyTracking.configValues"),
                ]
            );
            assert!(apply.is_none());
            assert!(failure.starts_with("Could not evaluate tracking data for '.#host'.\n"));
        }
        _ => panic!("expected an evaluation"),
    }
    match plan_resolve("github:me/cfg#a#b", false, Wanted::Combined { explicit: true }) {
        Ok(Plan::Evaluate { refs, apply, .. }) => {
            assert_eq!(refs[0], "github:me/cfg#nixosConfigurations.a#b.dependencyTracking");
            assert_eq!(refs[1], "github:me/cfg#a#b.dependencyTracking");
            assert_eq!(
                apply.as_deref(),
                Some("t: { configValues = t.explicitConfigValues; filteredDeps = t.filteredDeps; }")
            );
        }
        _ => panic!("expected an evaluation"),
    }
    match plan_resolve("f#x", false, Wanted::Deps) {
        Ok(Plan::Evaluate { header, refs, failure, .. }) => {
            assert_eq!(header, "Evaluating deps for f#x...");
            assert_eq!(refs[0], "f#nixosConfigurations.x.dependencyTracking.filteredDeps");
            assert!(failure.starts_with("Could not evaluate dependency data for 'f#x'."));
        }
        _ => panic!("expected an evaluation"),
    }
}

#[test]
fn unknown_argument() {
    match plan_resolve("nothing", false, Wanted::Deps) {
        Err(e) => assert_eq!(
            e,
            "'nothing' is not an existing directory or flake reference (flake refs must contain '#')"
        ),
        Ok(_) => panic!("expected an error"),
    }
}

#[test]
fn eval_arguments() {
    assert_eq!(
        nix_eval_args(&s("f#x"), &None, &vec![s("--impure")]),
        vec![s("eval"), s("--json"), s("--impure"), s("f#x")]
    );
    assert_eq!(
        nix_eval_args(&s("r"), &Some(s("t: t")), &vec![]),
        vec![s("eval"), s("--json"), s("--apply"), s("t: t"), s("r")]
    );
}

#[test]
fn combined_parts() {
    let v = JsonValue::Object(vec![
        (s("configValues"), JsonValue::Object(vec![(s("a"), JsonValue::Null)])),
        (s("filteredDeps"), JsonValue::Array(vec![JsonValue::Null])),
    ]);
    let r = combined_from_value(&v);
    assert!(matches!(&r.config_values, JsonValue::Object(e) if e.len() == 1));
    assert!(matches!(&r.filtered_deps, JsonValue::Array(e) if e.len() == 1));
    let r = combined_from_value(&JsonValue::Null);
    assert!(matches!(&r.config_values, JsonValue::Object(e) if e.is_empty()));
    assert!(matches!(&r.filtered_deps, JsonValue::Array(e) if e.is_empty()));
    let r = combined_from_files(JsonValue::Bool(true), None);
    assert!(matches!(r.config_values, JsonValue::Bool(true)));
    assert!(matches!(&r.filtered_deps, JsonValue::Array(e) if e.is_empty()));
}
