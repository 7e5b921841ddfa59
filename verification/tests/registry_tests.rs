use nexus_supervisor::registry::{ProcessKind, ProcessRegistry, SupervisedProcess};

#[test]
fn terminate_all_on_empty_registry() {
    let mut reg = ProcessRegistry::new();
    let sig = reg.terminate_all();
    assert!(sig.is_empty());
    assert!(reg.is_empty());
}

#[test]
fn terminate_all_twice_signals_nothing_the_second_time() {
    let mut reg = ProcessRegistry::new();
    reg.register(SupervisedProcess { kind: ProcessKind::Bridge, handle: 41 });
    let first = reg.terminate_all();
    assert_eq!(first.len(), 1);
    assert_eq!(first[0].handle, 41);
    let second = reg.terminate_all();
    assert!(second.is_empty());
    assert!(reg.is_empty());
}

#[test]
fn terminate_all_signals_both_kinds_and_empties_the_table() {
    let mut reg = ProcessRegistry::new();
    reg.register(SupervisedProcess { kind: ProcessKind::Bridge, handle: 7 });
    reg.register(SupervisedProcess { kind: ProcessKind::Tunnel, handle: 9 });
    let sig = reg.terminate_all();
    assert_eq!(sig.len(), 2);
    assert_eq!(sig[0], SupervisedProcess { kind: ProcessKind::Bridge, handle: 7 });
    assert_eq!(sig[1], SupervisedProcess { kind: ProcessKind::Tunnel, handle: 9 });
    assert!(reg.is_empty());
    assert_eq!(reg.get(ProcessKind::Bridge), None);
    assert_eq!(reg.get(ProcessKind::Tunnel), None);
}

#[test]
fn register_replaces_the_same_kind_and_keeps_the_other() {
    let mut reg = ProcessRegistry::new();
    reg.register(SupervisedProcess { kind: ProcessKind::Tunnel, handle: 1 });
    reg.register(SupervisedProcess { kind: ProcessKind::Bridge, handle: 2 });
    reg.register(SupervisedProcess { kind: ProcessKind::Tunnel, handle: 3 });
    assert_eq!(
        reg.get(ProcessKind::Tunnel),
        Some(SupervisedProcess { kind: ProcessKind::Tunnel, handle: 3 })
    );
    assert_eq!(
        reg.get(ProcessKind::Bridge),
        Some(SupervisedProcess { kind: ProcessKind::Bridge, handle: 2 })
    );
}

#[test]
fn kinds_are_each_others_other() {
    assert_eq!(ProcessKind::Bridge.other(), ProcessKind::Tunnel);
    assert_eq!(ProcessKind::Tunnel.other(), ProcessKind::Bridge);
}
