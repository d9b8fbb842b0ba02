use skills::lints::env_var::{
    env_read_is_flagged, is_env_read_segments, is_harness_entrypoint_path,
    is_harness_startup_module_name, is_harness_test_module_name, is_inside_harness_startup_module,
};

#[test]
fn harness_startup_module_name_is_allowed() {
    assert!(is_harness_startup_module_name("startup"));
}

#[test]
fn startup_prefixed_function_name_is_not_a_module_boundary() {
    assert!(!is_harness_startup_module_name(
        "startup_model_adapter_from_runtime_config"
    ));
}

#[test]
fn tests_module_name_is_not_a_startup_boundary() {
    assert!(is_harness_test_module_name("tests"));
    assert!(!is_harness_startup_module_name("tests"));
}

#[test]
fn env_var_call_is_linted() {
    assert!(is_env_read_segments(&["env", "var"], 1));
}

#[test]
fn std_env_var_call_is_linted() {
    assert!(is_env_read_segments(&["std", "env", "var"], 1));
}

#[test]
fn env_vars_call_is_linted() {
    assert!(is_env_read_segments(&["env", "vars"], 0));
}

#[test]
fn std_env_vars_call_is_linted() {
    assert!(is_env_read_segments(&["std", "env", "vars"], 0));
}

#[test]
fn env_var_call_with_missing_argument_is_skipped() {
    assert!(!is_env_read_segments(&["env", "var"], 0));
}

#[test]
fn env_vars_call_with_argument_is_skipped() {
    assert!(!is_env_read_segments(&["env", "vars"], 1));
}

#[test]
fn env_var_os_call_is_skipped() {
    assert!(!is_env_read_segments(&["env", "var_os"], 1));
}

#[test]
fn other_var_call_is_skipped() {
    assert!(!is_env_read_segments(&["config", "var"], 1));
}

#[test]
fn longer_or_shorter_paths_are_not_env_reads() {
    assert!(!is_env_read_segments(&["var"], 1));
    assert!(!is_env_read_segments(&["core", "std", "env", "var"], 1));
    assert!(!is_env_read_segments(&[], 0));
}

#[test]
fn startup_module_of_the_harness_entrypoint_is_exempt() {
    let main = "crates/symbiote-harness/src/main.rs";
    assert!(is_harness_entrypoint_path(main));
    assert!(is_harness_entrypoint_path("/repo/crates/symbiote-harness/src/main.rs"));
    assert!(!is_harness_entrypoint_path("crates/symbiote-harness/src/lib.rs"));
    assert!(is_inside_harness_startup_module(&["inner", "startup"]));
    assert!(!is_inside_harness_startup_module(&["startup", "tests"]));
    assert!(!is_inside_harness_startup_module(&[]));
    assert!(!env_read_is_flagged(&["env", "var"], 1, main, &["startup"]));
    assert!(env_read_is_flagged(&["env", "var"], 1, main, &["other"]));
    assert!(env_read_is_flagged(
        &["env", "var"],
        1,
        "crates/other/src/main.rs",
        &["startup"]
    ));
    assert!(!env_read_is_flagged(&["env", "var_os"], 1, "crates/other/src/main.rs", &[]));
}
