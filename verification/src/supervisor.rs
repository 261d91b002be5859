//! Process supervision: the exact emulator command line for one
//! instance, and the stop rule that turns the outcome of a graceful
//! signal into the next step. The surrounding application delivers the
//! signals, waits out the grace period, and spawns the process.
use vstd::prelude::*;
use crate::text::{chars_to_string, dec_digits, push_dec_u32, push_str_chars};

verus! {

/// Outcome of delivering a signal to a process.
#[derive(PartialEq, Eq, Structural, Clone, Copy, Debug)]
pub enum SignalOutcome {
    /// The signal was queued for a live process.
    Delivered,
    /// No process with that pid exists: it has already exited.
    NoSuchProcess,
    /// Delivery failed for another reason; the OS errno is kept.
    Denied(i32),
}

/// What the supervisor does after attempting the graceful signal.
#[derive(PartialEq, Eq, Structural, Clone, Copy, Debug)]
pub enum StopDecision {
    /// The process was alive: wait out the grace period, then force-kill.
    WaitThenForceKill,
    /// The process had already exited: stopping succeeds silently.
    AlreadyExited,
    /// Delivery failed: surface a termination error; no forced kill.
    Fail(i32),
}

/// The stop rule, one decision per outcome. A process that is already
/// gone is success, not an error, so stopping an exited pid is
/// idempotent; only a delivered graceful signal leads to the forced
/// kill; any other delivery failure stops the procedure.
pub open spec fn spec_stop_plan(o: SignalOutcome) -> StopDecision {
    match o {
        SignalOutcome::Delivered => StopDecision::WaitThenForceKill,
        SignalOutcome::NoSuchProcess => StopDecision::AlreadyExited,
        SignalOutcome::Denied(e) => StopDecision::Fail(e),
    }
}

/// Decides the next step from the outcome of the graceful signal.
pub fn stop_plan(o: &SignalOutcome) -> (r: StopDecision)
    ensures
        r == spec_stop_plan(*o),
{
    match o {
        SignalOutcome::Delivered => StopDecision::WaitThenForceKill,
        SignalOutcome::NoSuchProcess => StopDecision::AlreadyExited,
        SignalOutcome::Denied(e) => StopDecision::Fail(*e),
    }
}

/// Relies on nix's `signal::kill` (kill(2)): delivers `SIGTERM`, or
/// `SIGKILL` when `force` is set, to the process with the given pid.
/// `Ok` from the call means the signal was delivered; errno `ESRCH`
/// means no such process; any other errno is reported as is. The pid
/// is kept positive and within `i32` so the signal goes to exactly one
/// process, never a process group.
#[verifier::external_body]
fn send_signal(pid: u32, force: bool) -> (r: SignalOutcome)
    requires
        1 <= pid <= 0x7FFF_FFFF,
{
    let sig = if force {
        nix::sys::signal::Signal::SIGKILL
    } else {
        nix::sys::signal::Signal::SIGTERM
    };
    match nix::sys::signal::kill(nix::unistd::Pid::from_raw(pid as i32), sig) {
        Ok(()) => SignalOutcome::Delivered,
        Err(nix::errno::Errno::ESRCH) => SignalOutcome::NoSuchProcess,
        Err(e) => SignalOutcome::Denied(e as i32),
    }
}

/// Begins stopping the process: sends the graceful signal and applies
/// the stop rule to whatever came back. A pid no signal can address is
/// refused with errno 22 (EINVAL), without touching the OS; for any
/// other pid the decision is the stop rule applied to the delivery
/// outcome, which only the OS decides.
pub fn stop_request(pid: u32) -> (r: StopDecision)
    ensures
        (pid < 1 || pid > 0x7FFF_FFFF) ==> r == StopDecision::Fail(22),
{
    if pid < 1 || pid > 0x7FFF_FFFF {
        StopDecision::Fail(22)
    } else {
        let o = send_signal(pid, false);
        stop_plan(&o)
    }
}

/// Forces the kill after the grace period. Best-effort: the outcome is
/// reported, never an error; a pid no signal can address is refused
/// with errno 22 (EINVAL), without touching the OS.
pub fn stop_force(pid: u32) -> (r: SignalOutcome)
    ensures
        (pid < 1 || pid > 0x7FFF_FFFF) ==> r == SignalOutcome::Denied(22),
{
    if pid < 1 || pid > 0x7FFF_FFFF {
        SignalOutcome::Denied(22)
    } else {
        send_signal(pid, true)
    }
}

/// The argument list of the emulator invocation for one instance:
/// fixed memory and CPU profile, boot order, display, the instance's
/// disk image, and a user-mode network device whose host-forward rule,
/// in the emulator's `tcp:[hostaddr]:hostport-[guestaddr]:guestport`
/// form, maps `ssh_port` on the host to port 22 in the guest.
pub open spec fn spec_vm_command(disk: Seq<char>, ssh_port: u16) -> Seq<Seq<char>> {
    seq![
        "-m"@,
        "8192"@,
        "-smp"@,
        "6"@,
        "-drive"@,
        "file="@ + disk,
        "-boot"@,
        "d"@,
        "-vga"@,
        "virtio"@,
        "-netdev"@,
        "user,id=net0,hostfwd=tcp::"@ + dec_digits(ssh_port as nat) + "-:22"@,
        "-device"@,
        "e1000,netdev=net0"@,
    ]
}

/// Builds the exact emulator argument list, deterministically from the
/// disk image path and the allocated SSH port alone.
pub fn vm_command(disk: &str, ssh_port: u16) -> (r: Vec<String>)
    ensures
        r.deep_view() == spec_vm_command(disk@, ssh_port),
{
    let mut r: Vec<String> = Vec::new();
    r.push("-m".to_owned());
    r.push("8192".to_owned());
    r.push("-smp".to_owned());
    r.push("6".to_owned());
    r.push("-drive".to_owned());
    let mut drive = "file=".to_owned();
    drive.append(disk);
    r.push(drive);
    r.push("-boot".to_owned());
    r.push("d".to_owned());
    r.push("-vga".to_owned());
    r.push("virtio".to_owned());
    r.push("-netdev".to_owned());
    let mut netdev_chars: Vec<char> = Vec::new();
    push_str_chars(&mut netdev_chars, "user,id=net0,hostfwd=tcp::");
    push_dec_u32(&mut netdev_chars, ssh_port as u32);
    push_str_chars(&mut netdev_chars, "-:22");
    r.push(chars_to_string(&netdev_chars));
    r.push("-device".to_owned());
    r.push("e1000,netdev=net0".to_owned());
    proof {
        assert(r.deep_view() =~~= spec_vm_command(disk@, ssh_port));
    }
    r
}

} // verus!
