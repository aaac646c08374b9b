//! The decisions of a supervision session: which services are watched, what
//! is reported when one exits, and when the session is over. The caller
//! performs the actions (signals, waits, printing) and reports the events.
use vstd::prelude::*;
use vstd::string::*;
use crate::logstore::texts;

verus! {

/// Where a session stands.
#[derive(Clone, Copy, Debug, PartialEq, Eq, Structural)]
pub enum Phase {
    /// Children run; exits are reported as they are seen.
    Running,
    /// Cancellation came; every child was asked to stop, and the session
    /// waits until each has been reaped.
    ShuttingDown,
    /// No child is left: the session returns.
    Finished,
}

/// The services of a session, in spawn order, and its phase.
#[derive(Debug)]
pub struct Supervisor {
    pub names: Vec<String>,
    pub phase: Phase,
}

/// How a child is asked to stop.
#[derive(Clone, Copy, Debug, PartialEq, Eq, Structural)]
pub enum StopSignal {
    /// A termination request that the child may handle (SIGTERM).
    Graceful,
    /// A kill that the child cannot refuse (SIGKILL).
    Forceful,
}

/// A request to stop the child at a position of the session.
#[derive(Clone, Copy, Debug, PartialEq, Eq, Structural)]
pub struct StopRequest {
    pub index: usize,
    pub signal: StopSignal,
}

/// What to tell the user about an exited service.
#[derive(Debug)]
pub struct ExitReport {
    pub name: String,
    pub message: String,
    pub is_error: bool,
}

/// The names of the services whose spawn succeeded, in order.
pub open spec fn started_names(names: Seq<Seq<char>>, started: Seq<bool>) -> Seq<Seq<char>>
    decreases names.len(),
{
    if names.len() == 0 {
        Seq::empty()
    } else {
        let rest = started_names(names.drop_last(), started.drop_last());
        if started.last() {
            rest.push(names.last())
        } else {
            rest
        }
    }
}

pub open spec fn exit_message(success: bool, status: Seq<char>) -> Seq<char> {
    if success {
        "Process exited"@
    } else {
        "Process exited with status: "@ + status
    }
}

pub open spec fn phase_after_removal(left: int, phase: Phase) -> Phase {
    if left == 0 {
        Phase::Finished
    } else {
        phase
    }
}

impl Supervisor {
    /// A session over the services whose spawn succeeded (`started[i]` for
    /// `names[i]`); those that failed are left out and the others go on.
    pub fn launch(names: &Vec<String>, started: &Vec<bool>) -> (r: Supervisor)
        requires
            names@.len() == started@.len(),
        ensures
            texts(r.names@) == started_names(texts(names@), started@),
            r.phase == Phase::Running,
    {
        let mut watched: Vec<String> = Vec::new();
        let mut i: usize = 0;
        while i < names.len()
            invariant
                names@.len() == started@.len(),
                i <= names@.len(),
                texts(watched@) == started_names(
                    texts(names@).subrange(0, i as int),
                    started@.subrange(0, i as int),
                ),
            decreases names@.len() - i,
        {
            let ghost before = watched@;
            if started[i] {
                watched.push(names[i].clone());
                proof {
                    assert(texts(watched@) =~= texts(before).push(names@[i as int]@));
                }
            }
            proof {
                assert(texts(names@).subrange(0, i + 1).drop_last() =~= texts(names@).subrange(
                    0,
                    i as int,
                ));
                assert(started@.subrange(0, i + 1).drop_last() =~= started@.subrange(0, i as int));
            }
            i = i + 1;
        }
        proof {
            assert(texts(names@).subrange(0, i as int) =~= texts(names@));
            assert(started@.subrange(0, i as int) =~= started@);
        }
        Supervisor { names: watched, phase: Phase::Running }
    }

    /// The service at `index` was seen to exit: it leaves the session, and
    /// the session is over when it was the last one.
    pub fn on_exit(&mut self, index: usize, success: bool, status: &str) -> (r: ExitReport)
        requires
            old(self).phase == Phase::Running,
            index < old(self).names@.len(),
        ensures
            texts(final(self).names@) == texts(old(self).names@).remove(index as int),
            final(self).phase == phase_after_removal(final(self).names@.len() as int, Phase::Running),
            r.name@ == old(self).names@[index as int]@,
            r.is_error == !success,
            r.message@ == exit_message(success, status@),
    {
        let name = self.names.remove(index);
        proof {
            assert(texts(self.names@) =~= texts(old(self).names@).remove(index as int));
        }
        if self.names.len() == 0 {
            self.phase = Phase::Finished;
        }
        let message = if success {
            String::from_str("Process exited")
        } else {
            String::from_str("Process exited with status: ").concat(status)
        };
        ExitReport { name, message, is_error: !success }
    }

    /// Cancellation came: returns a graceful stop request for every service
    /// still running, in order. The session then waits for each to be reaped.
    pub fn on_cancel(&mut self) -> (r: Vec<StopRequest>)
        requires
            old(self).phase == Phase::Running,
        ensures
            final(self).names@ == old(self).names@,
            r@.len() == old(self).names@.len(),
            forall|i: int|
                0 <= i < r@.len() ==> r@[i] == (StopRequest { index: i as usize, signal: StopSignal::Graceful }),
            final(self).phase == phase_after_removal(
                old(self).names@.len() as int,
                Phase::ShuttingDown,
            ),
    {
        let mut r: Vec<StopRequest> = Vec::new();
        let mut i: usize = 0;
        while i < self.names.len()
            invariant
                i <= self.names@.len(),
                r@.len() == i,
                forall|j: int|
                    0 <= j < i ==> r@[j] == (StopRequest { index: j as usize, signal: StopSignal::Graceful }),
            decreases self.names@.len() - i,
        {
            r.push(StopRequest { index: i, signal: StopSignal::Graceful });
            i = i + 1;
        }
        if self.names.len() == 0 {
            self.phase = Phase::Finished;
        } else {
            self.phase = Phase::ShuttingDown;
        }
        r
    }

    /// During shutdown, the service at `index` was confirmed to have exited.
    /// The session is over only once every service has been reaped.
    pub fn on_reaped(&mut self, index: usize)
        requires
            old(self).phase == Phase::ShuttingDown,
            index < old(self).names@.len(),
        ensures
            texts(final(self).names@) == texts(old(self).names@).remove(index as int),
            final(self).phase == phase_after_removal(
                final(self).names@.len() as int,
                Phase::ShuttingDown,
            ),
    {
        self.names.remove(index);
        proof {
            assert(texts(self.names@) =~= texts(old(self).names@).remove(index as int));
        }
        if self.names.len() == 0 {
            self.phase = Phase::Finished;
        }
    }

    /// Whether the session is over.
    pub fn is_finished(&self) -> (r: bool)
        ensures
            r == (self.phase == Phase::Finished),
    {
        match self.phase {
            Phase::Finished => true,
            _ => false,
        }
    }
}

/// A failed spawn keeps no other service out of the session: every service
/// whose spawn succeeded is supervised, whatever became of the others.
pub proof fn lemma_spawn_failures_isolated(names: Seq<Seq<char>>, started: Seq<bool>, i: int)
    requires
        names.len() == started.len(),
        0 <= i < names.len(),
        started[i],
    ensures
        started_names(names, started).contains(names[i]),
    decreases names.len(),
{
    let r = started_names(names.drop_last(), started.drop_last());
    if i == names.len() - 1 {
        assert(started_names(names, started).last() == names[i]);
    } else {
        lemma_spawn_failures_isolated(names.drop_last(), started.drop_last(), i);
        let k = choose|k: int| 0 <= k < r.len() && r[k] == names[i];
        if started.last() {
            assert(started_names(names, started)[k] == names[i]);
        }
    }
}

/// Stopping a process found only by its port: first a graceful request,
/// then, if it outlives a short grace period, a forceful one.
#[derive(Clone, Copy, Debug, PartialEq, Eq, Structural)]
pub enum Escalation {
    /// The graceful request was sent; liveness is checked after the grace period.
    Graceful,
    /// The forceful request was sent; liveness is checked once more.
    Forced,
    /// The process is confirmed gone.
    Stopped,
    /// The process outlived both requests.
    Failed,
}

/// The next step of an escalation, given whether the process is still alive.
pub open spec fn escalate(step: Escalation, still_alive: bool) -> Escalation {
    match step {
        Escalation::Graceful => if still_alive {
            Escalation::Forced
        } else {
            Escalation::Stopped
        },
        Escalation::Forced => if still_alive {
            Escalation::Failed
        } else {
            Escalation::Stopped
        },
        _ => step,
    }
}

impl Escalation {
    /// An escalation whose graceful request has just been sent.
    pub fn start() -> (r: Escalation)
        ensures
            r == Escalation::Graceful,
    {
        Escalation::Graceful
    }

    /// Takes in a liveness check. After `Forced` the caller sends the
    /// forceful request before checking again.
    pub fn observe(self, still_alive: bool) -> (r: Escalation)
        ensures
            r == escalate(self, still_alive),
    {
        match self {
            Escalation::Graceful => if still_alive {
                Escalation::Forced
            } else {
                Escalation::Stopped
            },
            Escalation::Forced => if still_alive {
                Escalation::Failed
            } else {
                Escalation::Stopped
            },
            other => other,
        }
    }

    /// Whether the escalation has ended, and the process is confirmed gone.
    pub fn succeeded(&self) -> (r: bool)
        ensures
            r == (*self == Escalation::Stopped),
    {
        match self {
            Escalation::Stopped => true,
            _ => false,
        }
    }
}

/// An escalation reports success only for a process confirmed gone by the
/// last check, and it never takes more than the two checks.
pub proof fn lemma_escalation_confirms(first_alive: bool, second_alive: bool)
    ensures
        escalate(escalate(Escalation::Graceful, first_alive), second_alive) == Escalation::Stopped
            <==> !(first_alive && second_alive),
        escalate(escalate(Escalation::Graceful, first_alive), second_alive) != Escalation::Graceful,
        escalate(escalate(Escalation::Graceful, first_alive), second_alive) != Escalation::Forced,
{
}

} // verus!
