use skills::lints::assert_contains::should_lint_target_source;
use skills::lints::inline_attr;
use skills::paths::{is_included_path, is_production_path};

#[test]
fn lib_production_source_file_is_linted() {
    assert!(is_production_path("crates/example/src/lib.rs"));
}

#[test]
fn lib_in_file_test_module_path_is_linted() {
    assert!(is_production_path("crates/example/src/tests.rs"));
}

#[test]
fn lib_integration_test_file_is_linted() {
    assert!(is_production_path("crates/example/tests/integration.rs"));
}

#[test]
fn lib_build_script_is_skipped() {
    assert!(!is_production_path("crates/example/build.rs"));
}

#[test]
fn lib_normal_target_source_is_skipped() {
    assert!(!should_lint_target_source(false));
}

#[test]
fn lib_harness_source_is_linted() {
    assert!(should_lint_target_source(true));
}

#[test]
fn normal_target_source_is_linted() {
    assert!(inline_attr::should_lint_target_source(false));
}

#[test]
fn harness_entrypoint_is_linted() {
    assert!(is_production_path("crates/symbiote-harness/src/main.rs"));
}

#[test]
fn absolute_harness_entrypoint_is_linted() {
    assert!(is_production_path("/repo/crates/symbiote-harness/src/main.rs"));
}

#[test]
fn excluded_bash_tool_source_is_linted_before_waiver_matching() {
    assert!(is_production_path("crates/symbiote-tool-bash/src/adapter.rs"));
}

#[test]
fn formerly_excluded_paths_are_linted() {
    assert!(is_included_path("crates/symbiote-tool-bash/src/adapter.rs"));
    assert!(is_included_path("crates/symbiote-adapter-interface/src/lib.rs"));
    assert!(is_included_path("crates/symbiote-core/src/parent_invocation.rs"));
    assert!(is_included_path("crates/symbiote-persistence/src/boundary_event.rs"));
}

#[test]
fn ordinary_paths_are_linted() {
    assert!(is_included_path("crates/symbiote-adapters/src/recording.rs"));
}

#[test]
fn path_without_file_name_is_not_production() {
    assert!(!is_production_path(""));
    assert!(!is_production_path("/"));
    assert!(!is_production_path("crates/.."));
    assert!(is_included_path("crates/.."));
}

#[test]
fn trailing_separators_and_dots_do_not_change_the_file_name() {
    assert!(!is_production_path("crates/example/build.rs/"));
    assert!(!is_production_path("crates/example/build.rs/."));
    assert!(!is_production_path("./build.rs"));
    assert!(is_production_path("build.rs.bak"));
}
