//! The server-side connection handler's state machine: one per worker
//! session.  The handler waits for the worker's init frame, claims one
//! render task at a time from the scheduler, drives it against the worker,
//! and reports exactly one result per claimed task — also when the session
//! dies mid-flight, so the scheduler's assigned set never leaks a frame.
//!
//! The socket reads and writes, the rendezvous on the scheduler's channel
//! and the file transfers happen outside; every decision between them is a
//! step function here, and the accounting law is proved over any run of
//! those steps.

use vstd::prelude::*;

use crate::message::ServerMessage;
use crate::message::WorkerMessage;
use crate::message::WorkerMessageView;
use crate::task::RenderTask;
use crate::task::RenderTaskResult;
use crate::task::TaskView;

verus! {

/// The phase of a server-side worker session.
pub enum SessionPhase {
    /// Waiting for the worker's init frame.
    AwaitingInit,
    /// Initialized; ready to claim a render task.
    Ready,
    /// Driving the claimed task against the worker.
    InTask(RenderTask),
    /// The session is over; nothing further happens on it.
    Terminal,
}

/// The mathematical shape of a session phase.
pub enum PhaseView {
    AwaitingInit,
    Ready,
    InTask(TaskView),
    Terminal,
}

impl View for SessionPhase {
    type V = PhaseView;

    open spec fn view(&self) -> PhaseView {
        match self {
            SessionPhase::AwaitingInit => PhaseView::AwaitingInit,
            SessionPhase::Ready => PhaseView::Ready,
            SessionPhase::InTask(t) => PhaseView::InTask(t@),
            SessionPhase::Terminal => PhaseView::Terminal,
        }
    }
}

/// How one driven task ended, as the handler observes it.
#[derive(Clone, Copy, Debug, PartialEq, Eq, Structural)]
pub enum TaskOutcome {
    /// The worker reported success and its output arrived intact.
    Done,
    /// The worker reported a render failure; the session stays usable.
    RenderFailed,
    /// The transport failed, or an unexpected frame arrived mid-task: the
    /// session is unusable, and the in-flight frame must still be
    /// accounted for.
    SessionBroken,
}

/// Per-connection session state on the server side.
pub struct Connection {
    /// The worker's self-reported name, once the init frame arrived.
    pub name: Option<Vec<u8>>,
    /// Where the session stands.
    pub phase: SessionPhase,
}

/// The mathematical shape of a session.
pub struct ConnectionView {
    pub name: Option<Seq<u8>>,
    pub phase: PhaseView,
}

impl View for Connection {
    type V = ConnectionView;

    open spec fn view(&self) -> ConnectionView {
        ConnectionView {
            name: match self.name {
                Some(n) => Some(n@),
                None => None,
            },
            phase: self.phase@,
        }
    }
}

/// One step of a session: the events the surrounding loop can observe.
pub enum SessionStep {
    /// A control frame arrived while awaiting init.
    Init(WorkerMessageView),
    /// The scheduler's handoff delivered a task.
    Claim(TaskView),
    /// The claimed task ended this way.
    Outcome(TaskOutcome),
}

/// The session's transition function: the state after the step, and the
/// result report (if any) the step obliges the handler to send to the
/// scheduler.  A claim is only accepted when the session is ready; every
/// step out of the in-task phase reports exactly once, for exactly the
/// in-flight task.
pub open spec fn session_next(pre: ConnectionView, ev: SessionStep) -> (
    ConnectionView,
    Option<(TaskView, RenderTaskResult)>,
) {
    match ev {
        SessionStep::Init(m) => {
            if pre.phase is AwaitingInit {
                match m {
                    WorkerMessageView::Init(n) => (
                        ConnectionView { name: n, phase: PhaseView::Ready },
                        None,
                    ),
                    _ => (ConnectionView { name: pre.name, phase: PhaseView::Terminal }, None),
                }
            } else {
                (pre, None)
            }
        },
        SessionStep::Claim(t) => {
            if pre.phase is Ready {
                (ConnectionView { name: pre.name, phase: PhaseView::InTask(t) }, None)
            } else {
                (pre, None)
            }
        },
        SessionStep::Outcome(oc) => match pre.phase {
            PhaseView::InTask(t) => (
                ConnectionView {
                    name: pre.name,
                    phase: if oc is SessionBroken {
                        PhaseView::Terminal
                    } else {
                        PhaseView::Ready
                    },
                },
                Some(
                    (
                        t,
                        if oc is Done {
                            Ok(())
                        } else {
                            Err(())
                        },
                    ),
                ),
            ),
            _ => (pre, None),
        },
    }
}

impl Connection {
    /// A fresh session: no name, awaiting the init frame.
    pub fn new() -> (c: Connection)
        ensures
            c@.phase is AwaitingInit,
            c@.name is None,
    {
        Connection { name: None, phase: SessionPhase::AwaitingInit }
    }

    /// Handle the first frame of the session: an init frame stores the
    /// worker's name and makes the session ready; anything else ends it.
    /// Returns whether the session survives.
    pub fn handle_init(&mut self, m: WorkerMessage) -> (ok: bool)
        requires
            old(self)@.phase is AwaitingInit,
        ensures
            final(self)@ == session_next(old(self)@, SessionStep::Init(m@)).0,
            session_next(old(self)@, SessionStep::Init(m@)).1 is None,
            ok == (m@ is Init),
    {
        match m {
            WorkerMessage::Init { name } => {
                self.name = name;
                self.phase = SessionPhase::Ready;
                true
            },
            _ => {
                self.phase = SessionPhase::Terminal;
                false
            },
        }
    }

    /// Claim a task from the scheduler's handoff: the session moves in-task
    /// and the frame to send to the worker is returned.
    pub fn claim_task(&mut self, t: RenderTask) -> (m: ServerMessage)
        requires
            old(self)@.phase is Ready,
        ensures
            final(self)@ == session_next(old(self)@, SessionStep::Claim(t@)).0,
            session_next(old(self)@, SessionStep::Claim(t@)).1 is None,
            m@ == t@,
    {
        let frame = ServerMessage::StartRender(t.duplicate());
        self.phase = SessionPhase::InTask(t);
        frame
    }

    /// Conclude the in-flight task: the session returns to ready (or ends,
    /// when the transport broke), and the one result report for the task
    /// is returned, to be sent to the scheduler in every case.
    pub fn finish_task(&mut self, outcome: TaskOutcome) -> (rep: (RenderTask, RenderTaskResult))
        requires
            old(self)@.phase is InTask,
        ensures
            final(self)@ == session_next(old(self)@, SessionStep::Outcome(outcome)).0,
            session_next(old(self)@, SessionStep::Outcome(outcome)).1 == Some((rep.0@, rep.1)),
    {
        let t = match &self.phase {
            SessionPhase::InTask(t) => t.duplicate(),
            _ => {
                proof {
                    assert(false);
                }
                vstd::pervasive::unreached()
            },
        };
        let result: RenderTaskResult = match outcome {
            TaskOutcome::Done => Ok(()),
            TaskOutcome::RenderFailed => Err(()),
            TaskOutcome::SessionBroken => Err(()),
        };
        self.phase = match outcome {
            TaskOutcome::SessionBroken => SessionPhase::Terminal,
            _ => SessionPhase::Ready,
        };
        (t, result)
    }
}

/// A run of the session machine: `states` are the visited states, in
/// order, and `events[k]` takes `states[k]` to `states[k + 1]`.
pub open spec fn valid_run(states: Seq<ConnectionView>, events: Seq<SessionStep>) -> bool {
    &&& states.len() == events.len() + 1
    &&& forall|k: int|
        0 <= k < events.len() ==> states[k + 1] == session_next(#[trigger] states[k], events[k]).0
}

/// Whether a session holds a task in flight.
pub open spec fn in_flight(c: ConnectionView) -> int {
    if c.phase is InTask {
        1
    } else {
        0
    }
}

/// How many of the first `n` events are accepted claims.
pub open spec fn total_claims(
    states: Seq<ConnectionView>,
    events: Seq<SessionStep>,
    n: int,
) -> int
    decreases n,
{
    if n <= 0 {
        0
    } else {
        total_claims(states, events, n - 1) + if events[n - 1] is Claim && states[n
            - 1].phase is Ready {
            1int
        } else {
            0int
        }
    }
}

/// How many of the first `n` events emit a result report.
pub open spec fn total_reports(
    states: Seq<ConnectionView>,
    events: Seq<SessionStep>,
    n: int,
) -> int
    decreases n,
{
    if n <= 0 {
        0
    } else {
        total_reports(states, events, n - 1) + if session_next(
            states[n - 1],
            events[n - 1],
        ).1 is Some {
            1int
        } else {
            0int
        }
    }
}

/// Result accounting: over any run of a session, the number of result
/// reports equals the number of accepted claims, up to the one task that
/// may be in flight at either end.  In particular, a run that starts and
/// ends with no task in flight reports exactly once per claimed task.
pub proof fn lemma_result_accounting(
    states: Seq<ConnectionView>,
    events: Seq<SessionStep>,
    n: int,
)
    requires
        valid_run(states, events),
        0 <= n <= events.len(),
    ensures
        total_claims(states, events, n) + in_flight(states[0]) == total_reports(states, events, n)
            + in_flight(states[n]),
    decreases n,
{
    if n > 0 {
        lemma_result_accounting(states, events, n - 1);
        assert(states[n] == session_next(states[n - 1], events[n - 1]).0);
    }
}

} // verus!
