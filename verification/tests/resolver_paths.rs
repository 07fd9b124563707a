use mcp_supervisor::resolver::Platform;
use mcp_supervisor::resolver::executable_relative_path;
use mcp_supervisor::resolver::platform_dir;
use mcp_supervisor::resolver::select_resolved;
use mcp_supervisor::resolver::try_dev_mode_path_correction;

#[test]
fn each_platform_has_its_directory() {
    assert_eq!(platform_dir(Platform::Windows), "windows");
    assert_eq!(platform_dir(Platform::MacOs), "macos");
    assert_eq!(platform_dir(Platform::Linux), "linux");
    assert_eq!(platform_dir(Platform::Other), "unknown");
}

#[test]
fn relative_path_composes_bin_platform_and_name() {
    assert_eq!(
        executable_relative_path(Platform::Windows, "svc.exe"),
        "bin/windows/svc.exe"
    );
    assert_eq!(executable_relative_path(Platform::Linux, "svc"), "bin/linux/svc");
}

#[test]
fn dev_layout_paths_are_corrected() {
    let r = try_dev_mode_path_correction("/app/target/debug/bin/tool");
    assert_eq!(r, Some("/app/target/debug/resources/bin/tool".to_string()));
}

#[test]
fn dev_layout_correction_handles_backslashes() {
    let r = try_dev_mode_path_correction("C:\\app\\target\\debug\\bin\\tool.exe");
    assert_eq!(
        r,
        Some("C:\\app\\target\\debug\\resources\\bin\\tool.exe".to_string())
    );
}

#[test]
fn installed_paths_need_no_correction() {
    assert_eq!(try_dev_mode_path_correction("/opt/app/bin/tool"), None);
    assert_eq!(try_dev_mode_path_correction(""), None);
}

#[test]
fn every_occurrence_is_corrected() {
    let r = try_dev_mode_path_correction("/a/target/debug/bin/x:/b/target/debug/bin/y");
    assert_eq!(
        r,
        Some("/a/target/debug/resources/bin/x:/b/target/debug/resources/bin/y".to_string())
    );
}

#[test]
fn existing_primary_wins() {
    let r = select_resolved("/app/target/debug/bin/tool".to_string(), true, true);
    assert_eq!(r.absolute_path, "/app/target/debug/bin/tool");
    assert!(r.exists);
}

#[test]
fn corrected_candidate_is_used_when_primary_is_missing() {
    let r = select_resolved("/app/target/debug/bin/tool".to_string(), false, true);
    assert_eq!(r.absolute_path, "/app/target/debug/resources/bin/tool");
    assert!(r.exists);
}

#[test]
fn primary_is_reported_absent_when_nothing_exists() {
    let r = select_resolved("/app/target/debug/bin/tool".to_string(), false, false);
    assert_eq!(r.absolute_path, "/app/target/debug/bin/tool");
    assert!(!r.exists);

    let r = select_resolved("/opt/app/bin/tool".to_string(), false, true);
    assert_eq!(r.absolute_path, "/opt/app/bin/tool");
    assert!(!r.exists);
}
