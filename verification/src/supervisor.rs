//! The process supervisor: the shared record of the managed process and the
//! transitions that `start`, `stop` and the exit watcher perform on it.
//!
//! The supervisor itself does no I/O. A caller that owns the real process
//! performs each outside step (spawning, sending the termination signal,
//! waiting for the exit) and feeds its outcome into the transition functions
//! here, which decide and update the shared state. Every transition is a
//! single atomic step on `ManagedProcessState`: the caller holds its guard
//! for the duration of the call and for nothing longer.

use vstd::prelude::*;

verus! {

/// Why a supervisor request was refused.
#[derive(Debug, Clone, PartialEq, Eq)]
pub enum SupervisorError {
    /// `start` was called while a process is already tracked.
    AlreadyRunning,
    /// `stop` was called while no process is tracked.
    NotRunning,
    /// The resolved executable does not exist on disk.
    NotFound,
    /// The spawn call failed; the operating system's message is kept.
    LaunchFailed(String),
    /// The termination call failed; the operating system's message is kept.
    TerminationFailed(String),
    /// The mutual-exclusion guard around the shared state could not be
    /// acquired. Only the unverified shell that owns the guard reports this.
    LockFailed,
}

/// What a successful supervisor request acknowledges.
#[derive(Debug, Clone, Copy, PartialEq, Eq, Structural)]
pub enum Acknowledgement {
    Started,
    Stopped,
}

/// The terminal event of one managed-process lifetime: the exit code, or
/// `None` when the exit status could not be read.
#[derive(Debug, Clone, Copy, PartialEq, Eq)]
pub struct ExitNotification {
    pub exit_code: Option<i32>,
}

/// The single shared record of supervision status: the tracked process
/// identifier, or `None` when no process is managed.
pub struct ManagedProcessState {
    process_id: Option<u32>,
}

impl View for ManagedProcessState {
    type V = Option<u32>;

    closed spec fn view(&self) -> Option<u32> {
        self.process_id
    }
}

impl ManagedProcessState {
    /// A fresh record: nothing is tracked.
    pub fn new() -> (s: Self)
        ensures
            s@ is None,
    {
        ManagedProcessState { process_id: None }
    }

    /// Whether a process is currently tracked.
    pub fn is_tracked(&self) -> (b: bool)
        ensures
            b == (self@ is Some),
    {
        self.process_id.is_some()
    }

    /// The tracked process identifier, if any.
    pub fn tracked_pid(&self) -> (p: Option<u32>)
        ensures
            p == self@,
    {
        self.process_id
    }

    /// Record a freshly spawned process. Only a successful start may call
    /// this, and only while nothing is tracked.
    pub fn record(&mut self, pid: u32)
        requires
            old(self)@ is None,
        ensures
            final(self)@ == Some(pid),
    {
        self.process_id = Some(pid);
    }

    /// Forget the tracked process. Total and idempotent: clearing an
    /// already-empty record is a no-op, never an error, so `stop` and the
    /// exit watcher may both clear without coordination.
    pub fn clear(&mut self)
        ensures
            final(self)@ is None,
    {
        self.process_id = None;
    }
}

/// What one `start` request does to the state, given whether the resolved
/// executable exists and how the spawn attempt (made only when the
/// preconditions hold) came out: the new state and the reply.
pub open spec fn start_step(
    m: Option<u32>,
    exe_exists: bool,
    spawn: Result<u32, String>,
) -> (Option<u32>, Result<Acknowledgement, SupervisorError>) {
    if m is Some {
        (m, Err(SupervisorError::AlreadyRunning))
    } else if !exe_exists {
        (m, Err(SupervisorError::NotFound))
    } else {
        match spawn {
            Ok(pid) => (Some(pid), Ok(Acknowledgement::Started)),
            Err(msg) => (m, Err(SupervisorError::LaunchFailed(msg))),
        }
    }
}

/// What one `stop` request does to the state, given how the termination
/// signal (sent only when a process is tracked) came out.
pub open spec fn stop_step(
    m: Option<u32>,
    signal: Result<(), String>,
) -> (Option<u32>, Result<Acknowledgement, SupervisorError>) {
    match m {
        None => (m, Err(SupervisorError::NotRunning)),
        Some(_) => match signal {
            Ok(_) => (None, Ok(Acknowledgement::Stopped)),
            Err(msg) => (m, Err(SupervisorError::TerminationFailed(msg))),
        },
    }
}

/// What the exit watcher's observation does: the state is cleared whatever
/// it held, and exactly one notification carrying the observed code is
/// emitted.
pub open spec fn exit_step(m: Option<u32>, code: Option<i32>) -> (
    Option<u32>,
    ExitNotification,
) {
    (None, ExitNotification { exit_code: code })
}

/// The decision at the head of `start`, taken inside the critical section:
/// refuse when a process is tracked or the executable is missing; otherwise
/// the caller may spawn.
pub fn start_precheck(state: &ManagedProcessState, exe_exists: bool) -> (r: Result<
    (),
    SupervisorError,
>)
    ensures
        r == if state@ is Some {
            Err::<(), SupervisorError>(SupervisorError::AlreadyRunning)
        } else if !exe_exists {
            Err::<(), SupervisorError>(SupervisorError::NotFound)
        } else {
            Ok::<(), SupervisorError>(())
        },
{
    if state.is_tracked() {
        Err(SupervisorError::AlreadyRunning)
    } else if !exe_exists {
        Err(SupervisorError::NotFound)
    } else {
        Ok(())
    }
}

/// The tail of `start`: fold the spawn outcome into the state. A failed
/// spawn leaves the state exactly as it was; a successful one records the
/// new process identifier.
pub fn start_commit(state: &mut ManagedProcessState, spawn: Result<u32, String>) -> (r: Result<
    Acknowledgement,
    SupervisorError,
>)
    requires
        old(state)@ is None,
    ensures
        (final(state)@, r) == start_step(old(state)@, true, spawn),
{
    match spawn {
        Ok(pid) => {
            state.record(pid);
            Ok(Acknowledgement::Started)
        },
        Err(msg) => Err(SupervisorError::LaunchFailed(msg)),
    }
}

/// The decision at the head of `stop`: the identifier to signal, or
/// `NotRunning` when nothing is tracked. Never mutates the state.
pub fn stop_precheck(state: &ManagedProcessState) -> (r: Result<u32, SupervisorError>)
    ensures
        match state@ {
            Some(pid) => r == Ok::<u32, SupervisorError>(pid),
            None => r == Err::<u32, SupervisorError>(SupervisorError::NotRunning),
        },
{
    match state.tracked_pid() {
        Some(pid) => Ok(pid),
        None => Err(SupervisorError::NotRunning),
    }
}

/// The tail of `stop`: fold the termination-signal outcome into the state.
/// A failed signal leaves the state exactly as it was; a delivered one
/// clears it.
pub fn stop_commit(state: &mut ManagedProcessState, signal: Result<(), String>) -> (r: Result<
    Acknowledgement,
    SupervisorError,
>)
    requires
        old(state)@ is Some,
    ensures
        (final(state)@, r) == stop_step(old(state)@, signal),
{
    match signal {
        Ok(_) => {
            state.clear();
            Ok(Acknowledgement::Stopped)
        },
        Err(msg) => Err(SupervisorError::TerminationFailed(msg)),
    }
}

/// The exit watcher's single transition: clear the state (idempotently —
/// `stop` may have cleared it first) and build the one notification of this
/// lifetime with the observed exit code.
pub fn observe_exit(state: &mut ManagedProcessState, code: Option<i32>) -> (n: ExitNotification)
    ensures
        (final(state)@, n) == exit_step(old(state)@, code),
{
    state.clear();
    ExitNotification { exit_code: code }
}

/// One supervisor entry point together with the outcome of the outside step
/// it performed, for reasoning about whole call sequences.
pub enum SupervisorCall {
    Start { exe_exists: bool, spawn: Result<u32, String> },
    Stop { signal: Result<(), String> },
    ObserveExit { code: Option<i32> },
}

/// The state after one call.
pub open spec fn call_step(m: Option<u32>, c: SupervisorCall) -> Option<u32> {
    match c {
        SupervisorCall::Start { exe_exists, spawn } => start_step(m, exe_exists, spawn).0,
        SupervisorCall::Stop { signal } => stop_step(m, signal).0,
        SupervisorCall::ObserveExit { code } => exit_step(m, code).0,
    }
}

/// Whether this call is a successful `start` from state `m`.
pub open spec fn start_succeeds(m: Option<u32>, c: SupervisorCall) -> bool {
    match c {
        SupervisorCall::Start { exe_exists, spawn } => start_step(m, exe_exists, spawn).1 is Ok,
        _ => false,
    }
}

/// Whether this call clears the state: a `stop` whose signal was delivered,
/// or any exit observation.
pub open spec fn clears_state(m: Option<u32>, c: SupervisorCall) -> bool {
    match c {
        SupervisorCall::Stop { signal } => stop_step(m, signal).1 is Ok,
        SupervisorCall::ObserveExit { .. } => true,
        _ => false,
    }
}

/// How many `start` calls in the sequence succeed, starting from `m`.
pub open spec fn successful_starts(m: Option<u32>, cs: Seq<SupervisorCall>) -> nat
    decreases cs.len(),
{
    if cs.len() == 0 {
        0
    } else {
        (if start_succeeds(m, cs[0]) {
            1nat
        } else {
            0nat
        }) + successful_starts(call_step(m, cs[0]), cs.drop_first())
    }
}

/// How many calls in the sequence clear the state, starting from `m`.
pub open spec fn clearing_calls(m: Option<u32>, cs: Seq<SupervisorCall>) -> nat
    decreases cs.len(),
{
    if cs.len() == 0 {
        0
    } else {
        (if clears_state(m, cs[0]) {
            1nat
        } else {
            0nat
        }) + clearing_calls(call_step(m, cs[0]), cs.drop_first())
    }
}

/// How many calls in the sequence are exit observations.
pub open spec fn exit_observations(cs: Seq<SupervisorCall>) -> nat
    decreases cs.len(),
{
    if cs.len() == 0 {
        0
    } else {
        (if cs[0] matches SupervisorCall::ObserveExit { .. } {
            1nat
        } else {
            0nat
        }) + exit_observations(cs.drop_first())
    }
}

/// The notifications a sequence of calls emits, in order. Only the exit
/// watcher's observation emits one; `start` and `stop` never do.
pub open spec fn emitted_notifications(m: Option<u32>, cs: Seq<SupervisorCall>) -> Seq<
    ExitNotification,
>
    decreases cs.len(),
{
    if cs.len() == 0 {
        Seq::empty()
    } else {
        let rest = emitted_notifications(call_step(m, cs[0]), cs.drop_first());
        match cs[0] {
            SupervisorCall::ObserveExit { code } => seq![exit_step(m, code).1] + rest,
            _ => rest,
        }
    }
}

/// Mutual exclusion of starts. In any sequence of calls that contains no
/// successful `stop` and no exit observation, at most one `start` succeeds —
/// none at all when a process is already tracked at the outset. Every other
/// `start` is refused with `AlreadyRunning` by `start_step`.
pub proof fn lemma_at_most_one_start(m: Option<u32>, cs: Seq<SupervisorCall>)
    requires
        clearing_calls(m, cs) == 0,
    ensures
        successful_starts(m, cs) <= if m is Some {
            0int
        } else {
            1int
        },
    decreases cs.len(),
{
    if cs.len() > 0 {
        let m2 = call_step(m, cs[0]);
        lemma_at_most_one_start(m2, cs.drop_first());
        if m is Some {
            assert(!start_succeeds(m, cs[0]));
            assert(m2 is Some);
        } else {
            if start_succeeds(m, cs[0]) {
                assert(m2 is Some);
            }
        }
    }
}

/// One notification per exit, none from anywhere else. Whatever a sequence
/// of calls interleaves — successful or failing starts and stops, natural
/// or forced endings — it emits exactly one notification per exit
/// observation, and the notification carries that observation's code.
pub proof fn lemma_one_notification_per_exit(m: Option<u32>, cs: Seq<SupervisorCall>)
    ensures
        emitted_notifications(m, cs).len() == exit_observations(cs),
        forall|i: int| 0 <= i < cs.len() && (cs[i] matches SupervisorCall::ObserveExit { .. })
            ==> exit_observations(cs.take(i)) < emitted_notifications(m, cs).len(),
    decreases cs.len(),
{
    if cs.len() > 0 {
        let m2 = call_step(m, cs[0]);
        lemma_one_notification_per_exit(m2, cs.drop_first());
        assert forall|i: int|
            0 <= i < cs.len() && (cs[i] matches SupervisorCall::ObserveExit { .. }) implies
            exit_observations(cs.take(i)) < emitted_notifications(m, cs).len() by {
            if i == 0 {
                assert(cs.take(0) =~= Seq::<SupervisorCall>::empty());
            } else {
                assert(cs.drop_first()[i - 1] == cs[i]);
                lemma_exit_observations_take(m, cs, i);
            }
        }
    }
}

/// Counting exit observations commutes with dropping the head of the
/// sequence.
proof fn lemma_exit_observations_take(m: Option<u32>, cs: Seq<SupervisorCall>, i: int)
    requires
        1 <= i <= cs.len(),
    ensures
        exit_observations(cs.take(i)) == (if cs[0] matches SupervisorCall::ObserveExit { .. } {
            1nat
        } else {
            0nat
        }) + exit_observations(cs.drop_first().take(i - 1)),
{
    assert(cs.take(i)[0] == cs[0]);
    assert(cs.take(i).drop_first() =~= cs.drop_first().take(i - 1));
}

/// `stop` on an untracked state always fails with `NotRunning` and never
/// changes the state, whatever the (never attempted) signal outcome would
/// have been.
pub proof fn lemma_stop_untracked(signal: Result<(), String>)
    ensures
        stop_step(None, signal) == (
            None::<u32>,
            Err::<Acknowledgement, SupervisorError>(SupervisorError::NotRunning),
        ),
{
}

/// The exit watcher's observation is total: from every state — still
/// tracked after a natural exit, or already cleared by a racing `stop` — it
/// produces exactly one notification carrying the observed code, and leaves
/// the state untracked.
pub proof fn lemma_exit_notification(m: Option<u32>, code: Option<i32>)
    ensures
        exit_step(m, code).0 is None,
        exit_step(m, code).1 == (ExitNotification { exit_code: code }),
{
}

/// Clearing is idempotent. Whichever of `stop` and the exit watcher clears
/// first, a second clearing is a harmless no-op and the final state is
/// untracked; neither order can fail the clearing itself.
pub proof fn lemma_clear_idempotent(m: Option<u32>, c1: Option<i32>, c2: Option<i32>)
    ensures
        exit_step(exit_step(m, c1).0, c2).0 is None,
        stop_step(exit_step(m, c1).0, Ok(())).0 is None,
        exit_step(stop_step(m, Ok(())).0, c1).0 is None,
{
}

} // verus!
