use vstd::prelude::*;

verus! {

/// How long the child may take to stop after it was asked to, in milliseconds.
pub const GRACE_MS: u64 = 5000;

/// How the child process ended.
#[derive(Clone, Copy, Debug, PartialEq, Eq, Structural)]
pub enum ChildEnd {
    /// It exited with this code.
    Exited(i32),
    /// A signal with this number ended it.
    Signaled(i32),
}

/// The exit code that reports how the child ended: its own exit code, or
/// 128 plus the number of the signal that ended it.
pub open spec fn spec_exit_code_of(end: ChildEnd) -> int {
    match end {
        ChildEnd::Exited(c) => c as int,
        ChildEnd::Signaled(s) => 128 + s,
    }
}

/// The exit code that reports how the child ended.
pub fn exit_code_of(end: ChildEnd) -> (r: i32)
    requires
        end matches ChildEnd::Signaled(s) ==> 0 < s < 128,
    ensures
        r == spec_exit_code_of(end),
{
    match end {
        ChildEnd::Exited(c) => c,
        ChildEnd::Signaled(s) => 128 + s,
    }
}

/// Where the serving parent stands.
#[derive(Clone, Copy, Debug, PartialEq, Eq, Structural)]
pub enum ParentPhase {
    /// Serving the filesystem while the child runs.
    Serving,
    /// Asked to stop: the child was sent SIGTERM this many milliseconds ago.
    Stopping(u64),
    /// The child was sent SIGKILL.
    Killed,
}

/// What the parent observed.
#[derive(Clone, Copy, Debug, PartialEq, Eq, Structural)]
pub enum ParentEvent {
    /// The child ended.
    ChildEnded(ChildEnd),
    /// SIGTERM or SIGINT arrived.
    StopRequested,
    /// Time passed: this many milliseconds since the last event.
    Tick(u64),
}

/// What the parent does next.
#[derive(Clone, Copy, Debug, PartialEq, Eq, Structural)]
pub enum ParentAction {
    /// Keep serving and waiting.
    Wait,
    /// Send SIGTERM to the child.
    TerminateChild,
    /// Send SIGKILL to the child.
    KillChild,
    /// Unmount, then exit with this code.
    Exit(i32),
}

/// The parent's next phase and action after `event`: once the child ends it
/// exits with the child's status; a stop request sends SIGTERM to the child
/// once; a child still running a grace period later is sent SIGKILL.
pub open spec fn spec_parent_step(phase: ParentPhase, event: ParentEvent) -> (
    ParentPhase,
    ParentAction,
) {
    match event {
        ParentEvent::ChildEnded(end) => (phase, ParentAction::Exit(spec_exit_code_of(end) as i32)),
        ParentEvent::StopRequested => match phase {
            ParentPhase::Serving => (ParentPhase::Stopping(0), ParentAction::TerminateChild),
            _ => (phase, ParentAction::Wait),
        },
        ParentEvent::Tick(ms) => match phase {
            ParentPhase::Stopping(waited) => if waited + ms >= GRACE_MS {
                (ParentPhase::Killed, ParentAction::KillChild)
            } else {
                (ParentPhase::Stopping((waited + ms) as u64), ParentAction::Wait)
            },
            _ => (phase, ParentAction::Wait),
        },
    }
}

/// A phase that can be reached: a stopping parent has waited less than the
/// grace period.
pub open spec fn phase_wf(phase: ParentPhase) -> bool {
    phase matches ParentPhase::Stopping(w) ==> w < GRACE_MS
}

/// The parent's next phase and action after `event`.
pub fn parent_step(phase: ParentPhase, event: ParentEvent) -> (r: (ParentPhase, ParentAction))
    requires
        phase_wf(phase),
        event matches ParentEvent::ChildEnded(ChildEnd::Signaled(s)) ==> 0 < s < 128,
    ensures
        r == spec_parent_step(phase, event),
        phase_wf(r.0),
{
    match event {
        ParentEvent::ChildEnded(end) => (phase, ParentAction::Exit(exit_code_of(end))),
        ParentEvent::StopRequested => match phase {
            ParentPhase::Serving => (ParentPhase::Stopping(0), ParentAction::TerminateChild),
            _ => (phase, ParentAction::Wait),
        },
        ParentEvent::Tick(ms) => match phase {
            ParentPhase::Stopping(waited) => if ms >= GRACE_MS - waited {
                (ParentPhase::Killed, ParentAction::KillChild)
            } else {
                (ParentPhase::Stopping(waited + ms), ParentAction::Wait)
            },
            _ => (phase, ParentAction::Wait),
        },
    }
}

/// After a stop request, a child that has not ended is sent SIGKILL as soon
/// as the time waited reaches the grace period, and not before.
pub proof fn lemma_kill_after_grace(waited: u64, ms: u64)
    requires
        waited < GRACE_MS,
    ensures
        spec_parent_step(ParentPhase::Stopping(waited), ParentEvent::Tick(ms)).1
            == ParentAction::KillChild <==> waited + ms >= GRACE_MS,
{
}

/// Whatever the phase, once the child ends the parent exits with the code
/// that reports how it ended.
pub proof fn lemma_exit_with_child_status(phase: ParentPhase, end: ChildEnd)
    ensures
        spec_parent_step(phase, ParentEvent::ChildEnded(end)).1 == ParentAction::Exit(
            spec_exit_code_of(end) as i32,
        ),
{
}

} // verus!
