use cargo_mend::settings::config_relative_path;
use cargo_mend::settings::config_relative_path_for_settings;
use cargo_mend::settings::settings_candidate_path;

const WORKSPACE_ROOT: &str = "/tmp/mend-config-root-test/workspace";

fn check_nested_workspace_paths() {
    let file_path = format!("{WORKSPACE_ROOT}/mcp/src/brp_tools/tools/mod.rs");
    assert_eq!(
        config_relative_path(&file_path, WORKSPACE_ROOT, None).as_deref(),
        Some("mcp/src/brp_tools/tools/mod.rs")
    );
}

fn check_package_relative_workspace_paths() {
    // Nothing exists below /workspace/root, so the path is read below the
    // package root.
    let file_path = "src/brp_tools/tools/mod.rs";
    assert_eq!(
        config_relative_path_for_settings(file_path, "/workspace/root", "/workspace/root/mcp", false, None)
            .as_deref(),
        Some("mcp/src/brp_tools/tools/mod.rs")
    );
}

fn check_workspace_relative_paths() {
    // The file exists below the configuration root as written.
    let config_root = format!("{WORKSPACE_ROOT}");
    let package_root = format!("{WORKSPACE_ROOT}/mcp");
    let file_path = "mcp/src/brp_tools/tools/mod.rs";
    assert_eq!(
        config_relative_path_for_settings(file_path, &config_root, &package_root, true, None).as_deref(),
        Some("mcp/src/brp_tools/tools/mod.rs")
    );
}

#[test]
fn compiler_config_relative_path_handles_nested_workspace_paths() { check_nested_workspace_paths(); }

#[test]
fn settings_config_relative_path_handles_nested_workspace_paths() { check_nested_workspace_paths(); }

#[test]
fn compiler_config_relative_path_for_settings_handles_package_relative_workspace_paths() {
    check_package_relative_workspace_paths();
}

#[test]
fn settings_config_relative_path_for_settings_handles_package_relative_workspace_paths() {
    check_package_relative_workspace_paths();
}

#[test]
fn compiler_config_relative_path_for_settings_handles_workspace_relative_paths() {
    check_workspace_relative_paths();
}

#[test]
fn settings_config_relative_path_for_settings_handles_workspace_relative_paths() {
    check_workspace_relative_paths();
}

#[test]
fn paths_outside_the_root_fall_back_to_canonical_forms() {
    assert_eq!(config_relative_path("/elsewhere/src/lib.rs", "/workspace/root", None), None);
    let canonical = Some(("/real/root/src/lib.rs".to_string(), "/real/root".to_string()));
    assert_eq!(
        config_relative_path("/link/src/lib.rs", "/workspace/root", canonical).as_deref(),
        Some("src/lib.rs")
    );
    let unrelated = Some(("/real/other/lib.rs".to_string(), "/real/root".to_string()));
    assert_eq!(config_relative_path("/link/src/lib.rs", "/workspace/root", unrelated), None);
}

#[test]
fn unresolved_relative_paths_are_kept_as_written() {
    assert_eq!(
        config_relative_path_for_settings("src\\lib.rs", "/workspace/root", "/elsewhere/pkg", false, None)
            .as_deref(),
        Some("src/lib.rs")
    );
    assert_eq!(
        config_relative_path_for_settings("/elsewhere/pkg/src/lib.rs", "/workspace/root", "/elsewhere/pkg", false, None),
        None
    );
}

#[test]
fn relative_paths_resolve_below_the_package_root() {
    assert_eq!(settings_candidate_path("src/lib.rs", "/workspace/root/mcp"), "/workspace/root/mcp/src/lib.rs");
    assert_eq!(settings_candidate_path("/abs/src/lib.rs", "/workspace/root/mcp"), "/abs/src/lib.rs");
}
