use vm_orchestrator::supervisor::{stop_plan, stop_request, vm_command, SignalOutcome, StopDecision};

#[test]
fn stop_plan_maps_each_outcome() {
    assert_eq!(stop_plan(&SignalOutcome::Delivered), StopDecision::WaitThenForceKill);
    assert_eq!(stop_plan(&SignalOutcome::NoSuchProcess), StopDecision::AlreadyExited);
    assert_eq!(stop_plan(&SignalOutcome::Denied(13)), StopDecision::Fail(13));
}

#[test]
fn stop_of_exited_process_is_idempotent() {
    // The stop rule reports success for an already-exited process, and
    // gives the same answer when asked again.
    assert_eq!(stop_plan(&SignalOutcome::NoSuchProcess), StopDecision::AlreadyExited);
    assert_eq!(stop_plan(&SignalOutcome::NoSuchProcess), StopDecision::AlreadyExited);
}

#[test]
fn stop_request_on_nonexistent_pid_succeeds() {
    // No Linux pid reaches two billion, so the kernel reports ESRCH and
    // the stop rule turns that into silent success, both times.
    assert_eq!(stop_request(2_000_000_000), StopDecision::AlreadyExited);
    assert_eq!(stop_request(2_000_000_000), StopDecision::AlreadyExited);
}

#[test]
fn stop_request_refuses_unaddressable_pid() {
    assert!(matches!(stop_request(0), StopDecision::Fail(_)));
    assert!(matches!(stop_request(u32::MAX), StopDecision::Fail(_)));
}

#[test]
fn vm_command_builds_exact_invocation() {
    let args = vm_command("/srv/images/demo.qcow2", 50123);
    let expected = vec![
        "-m".to_string(),
        "8192".to_string(),
        "-smp".to_string(),
        "6".to_string(),
        "-drive".to_string(),
        "file=/srv/images/demo.qcow2".to_string(),
        "-boot".to_string(),
        "d".to_string(),
        "-vga".to_string(),
        "virtio".to_string(),
        "-netdev".to_string(),
        "user,id=net0,hostfwd=tcp::50123-:22".to_string(),
        "-device".to_string(),
        "e1000,netdev=net0".to_string(),
    ];
    assert_eq!(args, expected);
}

#[test]
fn vm_command_is_deterministic() {
    let a = vm_command("disk.qcow2", 49152);
    let b = vm_command("disk.qcow2", 49152);
    assert_eq!(a, b);
}
