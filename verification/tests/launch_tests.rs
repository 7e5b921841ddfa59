use nexus_supervisor::launch::{
    resolve_executable, server_launch_plan, spawn_outcome, tunnel_launch_plan, LaunchError,
};
use nexus_supervisor::registry::{ProcessKind, ProcessRegistry, SupervisedProcess};

fn bytes(s: &[u8]) -> Vec<u8> {
    s.to_vec()
}

#[test]
fn the_bundled_location_wins() {
    let r = resolve_executable(bytes(b"/app/tunnel-client"), true, bytes(b"/dev/tools/tunnel-client"), true);
    assert_eq!(r, Ok(bytes(b"/app/tunnel-client")));
}

#[test]
fn the_fallback_is_tried_second() {
    let r = resolve_executable(bytes(b"/app/tunnel-client"), false, bytes(b"/dev/tools/tunnel-client"), true);
    assert_eq!(r, Ok(bytes(b"/dev/tools/tunnel-client")));
}

#[test]
fn no_location_fails_the_launch() {
    let r = resolve_executable(bytes(b"/app/tunnel-client"), false, bytes(b"/dev/tools/tunnel-client"), false);
    assert_eq!(r, Err(LaunchError::ExecutableNotFound));
}

#[test]
fn server_plan_runs_the_entry_file_in_the_deployed_dir() {
    let plan = server_launch_plan(
        bytes(b"node"),
        bytes(b"server.js"),
        bytes(b"/data/bridge"),
        bytes(b"/data/logs/bridge.log"),
    );
    assert_eq!(plan.program, bytes(b"node"));
    assert_eq!(plan.args, vec![bytes(b"server.js")]);
    assert_eq!(plan.working_dir, bytes(b"/data/bridge"));
    assert_eq!(plan.log_path, bytes(b"/data/logs/bridge.log"));
}

#[test]
fn tunnel_plan_selects_run_mode_with_config_and_name() {
    let plan = tunnel_launch_plan(
        bytes(b"/app/tunnel-client"),
        bytes(b"/data/tunnel-config/config.yml"),
        bytes(b"my-tunnel"),
        bytes(b"/data/tunnel-config"),
        bytes(b"/data/logs/tunnel.log"),
    );
    assert_eq!(plan.program, bytes(b"/app/tunnel-client"));
    assert_eq!(
        plan.args,
        vec![
            bytes(b"run"),
            bytes(b"--config"),
            bytes(b"/data/tunnel-config/config.yml"),
            bytes(b"my-tunnel"),
        ]
    );
    assert_eq!(plan.working_dir, bytes(b"/data/tunnel-config"));
    assert_eq!(plan.log_path, bytes(b"/data/logs/tunnel.log"));
}

#[test]
fn a_granted_handle_becomes_the_supervised_process() {
    let r = spawn_outcome(ProcessKind::Tunnel, Some(4242));
    assert_eq!(r, Ok(SupervisedProcess { kind: ProcessKind::Tunnel, handle: 4242 }));
}

#[test]
fn a_rejected_spawn_is_reported() {
    let r = spawn_outcome(ProcessKind::Bridge, None);
    assert_eq!(r, Err(LaunchError::SpawnRejected));
}

#[test]
fn a_missing_executable_for_one_kind_leaves_the_other_running() {
    let mut reg = ProcessRegistry::new();

    let bridge_exec = resolve_executable(bytes(b"/data/bridge/server.js"), true, bytes(b""), false);
    assert!(bridge_exec.is_ok());
    let bridge = spawn_outcome(ProcessKind::Bridge, Some(11)).unwrap();
    reg.register(bridge);

    let tunnel_exec = resolve_executable(bytes(b"/app/tunnel-client"), false, bytes(b"/dev/tools/tunnel-client"), false);
    assert_eq!(tunnel_exec, Err(LaunchError::ExecutableNotFound));

    assert_eq!(
        reg.get(ProcessKind::Bridge),
        Some(SupervisedProcess { kind: ProcessKind::Bridge, handle: 11 })
    );
    assert_eq!(reg.get(ProcessKind::Tunnel), None);

    let sig = reg.terminate_all();
    assert_eq!(sig.len(), 1);
    assert_eq!(sig[0].handle, 11);
    assert!(reg.is_empty());
}
