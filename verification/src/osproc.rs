//! Signalling and reaping of OS processes, and the graceful-termination
//! protocol: send an interrupt, poll for exit during a grace period, then
//! force-kill and reap. The OS calls go through trusted wrappers around nix;
//! the protocol itself is verified, and its driver keeps a ghost log of what
//! the OS reported, so that its contract can say that success is claimed only
//! after an observation confirming that the process is gone.

use vstd::prelude::*;

verus! {

/// What the OS said about a signal we tried to deliver.
pub enum SigOutcome {
    /// The signal was delivered.
    Delivered,
    /// The signal number was rejected.
    InvalidSignal,
    /// We may not signal that process.
    NoPermission,
    /// No process with that id exists (for a child of ours: it is gone and
    /// already reaped).
    NoSuchProcess,
    /// Some other error.
    Failed,
}

/// What a non-blocking poll of a child said.
pub enum PollOutcome {
    /// The child is still running (or otherwise still exists).
    Running,
    /// The child has exited and was reaped by this poll: no process and no
    /// zombie is left.
    Exited,
    /// The id is not a child of ours any more: it was already reaped.
    Gone,
    /// Some other error.
    Failed,
}

/// What a blocking wait on a child said.
pub enum WaitOutcome {
    /// The child exited and was reaped: no process and no zombie is left.
    Reaped,
    /// The id is not a child of ours any more: it was already reaped.
    Gone,
    /// Some other error.
    Failed,
}

/// Relies on nix::sys::signal::kill with SIGINT: sends the interrupt to the
/// one process named by the positive pid and classifies the errno.
#[verifier::external_body]
fn send_interrupt(pid: i32) -> SigOutcome
    requires
        1 <= pid,
{
    match nix::sys::signal::kill(nix::unistd::Pid::from_raw(pid), nix::sys::signal::Signal::SIGINT)
    {
        Ok(()) => SigOutcome::Delivered,
        Err(nix::errno::Errno::EINVAL) => SigOutcome::InvalidSignal,
        Err(nix::errno::Errno::EPERM) => SigOutcome::NoPermission,
        Err(nix::errno::Errno::ESRCH) => SigOutcome::NoSuchProcess,
        Err(_) => SigOutcome::Failed,
    }
}

/// Relies on nix::sys::signal::kill with SIGKILL: force-kills the one process
/// named by the positive pid and classifies the errno.
#[verifier::external_body]
fn send_kill(pid: i32) -> SigOutcome
    requires
        1 <= pid,
{
    match nix::sys::signal::kill(nix::unistd::Pid::from_raw(pid), nix::sys::signal::Signal::SIGKILL)
    {
        Ok(()) => SigOutcome::Delivered,
        Err(nix::errno::Errno::EINVAL) => SigOutcome::InvalidSignal,
        Err(nix::errno::Errno::EPERM) => SigOutcome::NoPermission,
        Err(nix::errno::Errno::ESRCH) => SigOutcome::NoSuchProcess,
        Err(_) => SigOutcome::Failed,
    }
}

/// Relies on nix::sys::wait::waitpid with WNOHANG: polls the child without
/// blocking; an exit report reaps the child. A stop or continue report means
/// the process still exists.
#[verifier::external_body]
pub(crate) fn poll_child(pid: i32) -> PollOutcome
    requires
        1 <= pid,
{
    match nix::sys::wait::waitpid(
        nix::unistd::Pid::from_raw(pid),
        Some(nix::sys::wait::WaitPidFlag::WNOHANG),
    ) {
        Ok(nix::sys::wait::WaitStatus::StillAlive) => PollOutcome::Running,
        Ok(nix::sys::wait::WaitStatus::Exited(_, _)) => PollOutcome::Exited,
        Ok(nix::sys::wait::WaitStatus::Signaled(_, _, _)) => PollOutcome::Exited,
        Ok(_) => PollOutcome::Running,
        Err(nix::errno::Errno::ECHILD) => PollOutcome::Gone,
        Err(_) => PollOutcome::Failed,
    }
}

/// Relies on nix::sys::wait::waitpid without flags: blocks until the child
/// changes state; an exit report reaps the child.
#[verifier::external_body]
fn wait_reap(pid: i32) -> WaitOutcome
    requires
        1 <= pid,
{
    match nix::sys::wait::waitpid(nix::unistd::Pid::from_raw(pid), None) {
        Ok(nix::sys::wait::WaitStatus::Exited(_, _)) => WaitOutcome::Reaped,
        Ok(nix::sys::wait::WaitStatus::Signaled(_, _, _)) => WaitOutcome::Reaped,
        Ok(_) => WaitOutcome::Failed,
        Err(nix::errno::Errno::ECHILD) => WaitOutcome::Gone,
        Err(_) => WaitOutcome::Failed,
    }
}

/// Relies on nix::time::clock_nanosleep on the monotonic clock: suspends this
/// thread for about the given number of milliseconds.
#[verifier::external_body]
fn sleep_ms(ms: u64) {
    let secs = (ms / 1000) as i64;
    let nanos = ((ms % 1000) * 1_000_000) as i64;
    let _ = nix::time::clock_nanosleep(
        nix::time::ClockId::CLOCK_MONOTONIC,
        nix::time::ClockNanosleepFlags::empty(),
        &nix::sys::time::TimeSpec::new(secs, nanos),
    );
}

/// One observation made while terminating a process.
pub enum TermObs {
    SigInt(SigOutcome),
    Poll(PollOutcome),
    SigKill(SigOutcome),
    Wait(WaitOutcome),
}

/// Whether an observation confirms that the process is gone: it was reaped by
/// us, had already been reaped, or does not exist at all.
pub open spec fn confirms_gone(o: TermObs) -> bool {
    match o {
        TermObs::SigInt(s) => s is NoSuchProcess,
        TermObs::Poll(p) => p is Exited || p is Gone,
        TermObs::SigKill(s) => s is NoSuchProcess,
        TermObs::Wait(w) => w is Reaped || w is Gone,
    }
}

/// Some observation of the log confirms that the process is gone.
pub open spec fn log_confirms_gone(log: Seq<TermObs>) -> bool {
    exists|i: int| 0 <= i < log.len() && confirms_gone(#[trigger] log[i])
}

/// How a termination ended when it succeeded.
pub enum TermOk {
    /// The process exited within the grace period (or was already gone).
    Exited,
    /// The process had to be force-killed, and was reaped.
    ForceKilled,
}

/// How a termination failed.
pub enum TermError {
    /// We may not signal the process; it was left exactly as it was.
    PermissionDenied,
    /// No process with that id exists: the goal was already achieved, and the
    /// caller may treat this as success.
    NoSuchProcess,
    /// The OS reported some other error; the process may still be running.
    Failed,
}

/// How many liveness polls are made during the grace period.
pub const GRACE_POLLS: u64 = 10;

/// The default grace period, in milliseconds.
pub const DEFAULT_GRACE_MS: u64 = 2000;

/// Force-kill and reap, the tail of the protocol: SIGKILL, then a blocking
/// wait. The result is `Ok` exactly when one of the new observations
/// confirmed that the process is gone.
fn force_kill_reap(pid: i32, log0: Ghost<Seq<TermObs>>) -> (r: (
    Result<TermOk, TermError>,
    Ghost<Seq<TermObs>>,
))
    requires
        1 <= pid,
    ensures
        log0@.len() <= r.1@.len(),
        forall|i: int| 0 <= i < log0@.len() ==> r.1@[i] == log0@[i],
        (r.0 is Ok) ==> (exists|i: int|
            log0@.len() <= i < r.1@.len() && confirms_gone(#[trigger] r.1@[i])),
        (exists|i: int| log0@.len() <= i < r.1@.len() && confirms_gone(#[trigger] r.1@[i])) ==> (
        r.0 is Ok),
        r.0 is Ok ==> r.0 == Ok::<TermOk, TermError>(TermOk::ForceKilled),
        r.0 is Err ==> r.0 == Err::<TermOk, TermError>(TermError::Failed),
{
    let ghost mut log = log0@;
    let k = send_kill(pid);
    proof {
        log = log.push(TermObs::SigKill(k));
        assert(log[log0@.len() as int] == TermObs::SigKill(k));
    }
    match k {
        SigOutcome::Delivered => {
            let w = wait_reap(pid);
            proof {
                log = log.push(TermObs::Wait(w));
                assert(log[log0@.len() as int + 1] == TermObs::Wait(w));
                assert(log[log0@.len() as int] == TermObs::SigKill(k));
            }
            match w {
                WaitOutcome::Reaped => {
                    proof {
                        assert(confirms_gone(log[log0@.len() as int + 1]));
                        assert(exists|i: int|
                            log0@.len() <= i < log.len() && confirms_gone(#[trigger] log[i]));
                    }
                    (Ok(TermOk::ForceKilled), Ghost(log))
                },
                WaitOutcome::Gone => {
                    proof {
                        assert(confirms_gone(log[log0@.len() as int + 1]));
                        assert(exists|i: int|
                            log0@.len() <= i < log.len() && confirms_gone(#[trigger] log[i]));
                    }
                    (Ok(TermOk::ForceKilled), Ghost(log))
                },
                WaitOutcome::Failed => {
                    proof {
                        assert forall|i: int|
                            log0@.len() <= i < log.len() implies !confirms_gone(
                            #[trigger] log[i],
                        ) by {
                            assert(i == log0@.len() || i == log0@.len() + 1);
                        }
                    }
                    (Err(TermError::Failed), Ghost(log))
                },
            }
        },
        SigOutcome::NoSuchProcess => {
            proof {
                assert(confirms_gone(log[log0@.len() as int]));
                assert(exists|i: int|
                    log0@.len() <= i < log.len() && confirms_gone(#[trigger] log[i]));
            }
            (Ok(TermOk::ForceKilled), Ghost(log))
        },
        _ => {
            proof {
                assert forall|i: int|
                    log0@.len() <= i < log.len() implies !confirms_gone(#[trigger] log[i]) by {
                    assert(i == log0@.len());
                }
            }
            (Err(TermError::Failed), Ghost(log))
        },
    }
}

/// The graceful-termination protocol for the process with the given id:
/// 1. send an interrupt;
/// 2. poll liveness every tenth of the grace period until the process has
///    exited or the grace period has elapsed;
/// 3. if it still lives at the deadline, force-kill it and block until the
///    OS has reaped it, so that no zombie is left.
///
/// An invalid-signal report escalates directly to the force-kill; permission
/// denied and a nonexistent process are reported as distinct errors. The
/// returned ghost log holds every observation the protocol made, and the
/// result is `Ok` or `NoSuchProcess` exactly when one of those observations
/// confirmed that the process is gone — success is never claimed on a process
/// that was not seen dead.
pub fn terminate(pid: i32, grace_ms: u64) -> (r: (
    Result<TermOk, TermError>,
    Ghost<Seq<TermObs>>,
))
    requires
        1 <= pid,
    ensures
        (r.0 is Ok || r.0 == Err::<TermOk, TermError>(TermError::NoSuchProcess))
            <==> log_confirms_gone(r.1@),
{
    let ghost mut log: Seq<TermObs> = Seq::empty();
    let s = send_interrupt(pid);
    proof {
        log = log.push(TermObs::SigInt(s));
    }
    match s {
        SigOutcome::Delivered => {
            proof {
                assert(forall|i: int| 0 <= i < log.len() ==> !confirms_gone(#[trigger] log[i]));
            }
            let step = grace_ms / GRACE_POLLS;
            let mut polls: u64 = 0;
            while polls < GRACE_POLLS
                invariant
                    1 <= pid,
                    forall|i: int| 0 <= i < log.len() ==> !confirms_gone(#[trigger] log[i]),
                decreases GRACE_POLLS - polls,
            {
                let p = poll_child(pid);
                proof {
                    log = log.push(TermObs::Poll(p));
                }
                match p {
                    PollOutcome::Exited | PollOutcome::Gone => {
                        proof {
                            assert(confirms_gone(log[log.len() - 1]));
                        }
                        return (Ok(TermOk::Exited), Ghost(log));
                    },
                    PollOutcome::Running | PollOutcome::Failed => {
                        sleep_ms(step);
                    },
                }
                polls = polls + 1;
            }
            let p = poll_child(pid);
            proof {
                log = log.push(TermObs::Poll(p));
            }
            match p {
                PollOutcome::Exited | PollOutcome::Gone => {
                    proof {
                        assert(confirms_gone(log[log.len() - 1]));
                    }
                    (Ok(TermOk::Exited), Ghost(log))
                },
                PollOutcome::Running | PollOutcome::Failed => {
                    let (res, glog) = force_kill_reap(pid, Ghost(log));
                    proof {
                        if res is Ok {
                            let w = choose|i: int|
                                log.len() <= i < glog@.len() && confirms_gone(#[trigger] glog@[i]);
                            assert(confirms_gone(glog@[w]));
                        } else {
                            assert forall|i: int| 0 <= i < glog@.len() implies !confirms_gone(
                                #[trigger] glog@[i],
                            ) by {
                                if i < log.len() {
                                    assert(glog@[i] == log[i]);
                                }
                            }
                        }
                    }
                    (res, glog)
                },
            }
        },
        SigOutcome::InvalidSignal => {
            proof {
                assert(forall|i: int| 0 <= i < log.len() ==> !confirms_gone(#[trigger] log[i]));
            }
            let (res, glog) = force_kill_reap(pid, Ghost(log));
            proof {
                if res is Ok {
                    let w = choose|i: int|
                        log.len() <= i < glog@.len() && confirms_gone(#[trigger] glog@[i]);
                    assert(confirms_gone(glog@[w]));
                } else {
                    assert forall|i: int| 0 <= i < glog@.len() implies !confirms_gone(
                        #[trigger] glog@[i],
                    ) by {
                        if i < log.len() {
                            assert(glog@[i] == log[i]);
                        }
                    }
                }
            }
            (res, glog)
        },
        SigOutcome::NoPermission => {
            proof {
                assert(forall|i: int| 0 <= i < log.len() ==> !confirms_gone(#[trigger] log[i]));
            }
            (Err(TermError::PermissionDenied), Ghost(log))
        },
        SigOutcome::NoSuchProcess => {
            proof {
                assert(confirms_gone(log[log.len() - 1]));
            }
            (Err(TermError::NoSuchProcess), Ghost(log))
        },
        SigOutcome::Failed => {
            proof {
                assert(forall|i: int| 0 <= i < log.len() ==> !confirms_gone(#[trigger] log[i]));
            }
            (Err(TermError::Failed), Ghost(log))
        },
    }
}

} // verus!
