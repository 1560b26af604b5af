use depscan::supervisor::resolve_start_plan;
use depscan::supervisor::BuildMode;
use depscan::supervisor::HostOs;
use depscan::supervisor::Supervisor;

#[test]
fn stop_before_any_start_is_a_no_op() {
    let mut s = Supervisor::new();
    assert!(!s.is_running());
    assert_eq!(s.stop(), None);
    assert!(!s.is_running());
}

#[test]
fn stop_twice_in_a_row() {
    let mut s = Supervisor::new();
    s.on_spawned(42);
    assert!(s.is_running());
    assert_eq!(s.stop(), Some(42));
    assert!(!s.is_running());
    assert_eq!(s.stop(), None);
    assert!(!s.is_running());
}

#[test]
fn failed_spawn_leaves_no_handle() {
    let mut s = Supervisor::new();
    s.on_spawn_failed();
    assert!(!s.is_running());
    assert_eq!(s.stop(), None);
}

#[test]
fn development_plan_ignores_executable_location() {
    let p = resolve_start_plan(BuildMode::Development, HostOs::Linux, "/opt/app/bin", false);
    assert_eq!(p.backend_dir, "../backend");
    assert_eq!(p.entry_point, "../backend/main.py");
    assert_eq!(p.interpreter, "python3");
}

#[test]
fn packaged_plan_sits_beside_the_executable() {
    let p = resolve_start_plan(BuildMode::Packaged, HostOs::Linux, "/opt/app/bin", false);
    assert_eq!(p.backend_dir, "/opt/app/bin/backend");
    assert_eq!(p.entry_point, "/opt/app/bin/backend/main.py");
    assert_eq!(p.interpreter, "python3");
}

#[test]
fn packaged_mac_plan_prefers_bundle_resources() {
    let exe = "/Apps/My.app/Contents/MacOS";
    let with_resources = resolve_start_plan(BuildMode::Packaged, HostOs::MacOs, exe, true);
    assert_eq!(
        with_resources.backend_dir,
        "/Apps/My.app/Contents/MacOS/../Resources/backend"
    );
    let without = resolve_start_plan(BuildMode::Packaged, HostOs::MacOs, exe, false);
    assert_eq!(without.backend_dir, "/Apps/My.app/Contents/MacOS/backend");
    assert_eq!(without.interpreter, "python3");
}

#[test]
fn windows_interpreter_name() {
    let p = resolve_start_plan(BuildMode::Packaged, HostOs::Windows, "C:/app", false);
    assert_eq!(p.interpreter, "python");
    assert_eq!(p.backend_dir, "C:/app/backend");
}
