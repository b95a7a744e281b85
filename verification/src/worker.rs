//! Recording uses in the background: what the worker is to do next, given what
//! came of its last step.
//!
//! A [`LedgerWorker`] makes the decisions. Waiting for events, writing them down
//! and logging are the caller's, which performs each [`WorkerStep`] and reports
//! back with a [`WorkerEvent`].

use vstd::prelude::*;

use crate::error::{ErrorKind, MailError};
use crate::ledger::{EventText, UsageEvent};

verus! {

/// What to do next.
pub enum WorkerStep {
    /// Wait for the next event, once that line has been logged as an error, if
    /// there is one.
    Receive { log: Option<String> },
    /// Write that event to the ledger.
    Record(UsageEvent),
    /// Nothing: the work is over.
    Stop,
}

/// What came of a step.
pub enum WorkerEvent {
    /// An event was received.
    Received(UsageEvent),
    /// Every handle is gone, and no event is left.
    Closed,
    /// The event was written.
    Recorded,
    /// The event could not be written, for that reason.
    Failed(String),
}

enum Stage {
    Receiving,
    Recording { identity: String },
    Stopped,
}

/// Takes events as they come and has each of them written to the ledger.
pub struct LedgerWorker {
    stage: Stage,
}

/// Where a [`LedgerWorker`] stands: it waits for an event, has the use of an
/// identity written, or is done.
pub enum WorkerView {
    Receiving,
    Recording { identity: Seq<char> },
    Stopped,
}

/// What a [`WorkerStep`] says.
pub enum WorkerStepView {
    Receive { log: Option<Seq<char>> },
    Record(EventText),
    Stop,
}

impl View for LedgerWorker {
    type V = WorkerView;

    closed spec fn view(&self) -> WorkerView {
        match self.stage {
            Stage::Receiving => WorkerView::Receiving,
            Stage::Recording { identity } => WorkerView::Recording { identity: identity@ },
            Stage::Stopped => WorkerView::Stopped,
        }
    }
}

impl View for WorkerStep {
    type V = WorkerStepView;

    open spec fn view(&self) -> WorkerStepView {
        match *self {
            WorkerStep::Receive { log: None } => WorkerStepView::Receive { log: None },
            WorkerStep::Receive { log: Some(line) } => WorkerStepView::Receive { log: Some(line@) },
            WorkerStep::Record(event) => WorkerStepView::Record(event@),
            WorkerStep::Stop => WorkerStepView::Stop,
        }
    }
}

/// What is logged about an event that could not be written.
pub open spec fn lost_event(identity: Seq<char>, reason: Seq<char>) -> Seq<char> {
    "ledger failed to record usage for '"@ + identity + "': "@ + reason
}

impl WorkerView {
    /// Whether the event can come of the step that was asked for.
    pub open spec fn expects(self, event: WorkerEvent) -> bool {
        match self {
            WorkerView::Receiving => event is Received || event is Closed,
            WorkerView::Recording { .. } => event is Recorded || event is Failed,
            WorkerView::Stopped => false,
        }
    }

    /// Where the worker stands after the event, and the step that follows.
    pub open spec fn next(self, event: WorkerEvent) -> (WorkerView, WorkerStepView) {
        match (self, event) {
            (WorkerView::Receiving, WorkerEvent::Received(event)) => (
                WorkerView::Recording { identity: event.identity@ },
                WorkerStepView::Record(event@),
            ),
            (WorkerView::Recording { .. }, WorkerEvent::Recorded) => (
                WorkerView::Receiving,
                WorkerStepView::Receive { log: None },
            ),
            (WorkerView::Recording { identity }, WorkerEvent::Failed(reason)) => (
                WorkerView::Receiving,
                WorkerStepView::Receive { log: Some(lost_event(identity, reason@)) },
            ),
            _ => (WorkerView::Stopped, WorkerStepView::Stop),
        }
    }
}

impl LedgerWorker {
    /// Starts the work: the first step is to wait for an event.
    pub fn run() -> (r: (LedgerWorker, WorkerStep))
        ensures
            (r.0@, r.1@) == started(),
    {
        (LedgerWorker { stage: Stage::Receiving }, WorkerStep::Receive { log: None })
    }

    /// Takes the work one step further. It goes on until every handle is gone; an
    /// event that could not be written is logged and skipped.
    pub fn advance(&mut self, event: WorkerEvent) -> (r: WorkerStep)
        requires
            old(self)@.expects(event),
        ensures
            (final(self)@, r@) == old(self)@.next(event),
    {
        let mut stage: Stage = Stage::Stopped;
        std::mem::swap(&mut self.stage, &mut stage);
        match (stage, event) {
            (Stage::Receiving, WorkerEvent::Received(event)) => {
                self.stage = Stage::Recording { identity: event.identity.clone() };
                WorkerStep::Record(event)
            },
            (Stage::Recording { .. }, WorkerEvent::Recorded) => {
                self.stage = Stage::Receiving;
                WorkerStep::Receive { log: None }
            },
            (Stage::Recording { identity }, WorkerEvent::Failed(reason)) => {
                self.stage = Stage::Receiving;
                let mut line: String = String::new();
                line.append("ledger failed to record usage for '");
                line.append(identity.as_str());
                line.append("': ");
                line.append(reason.as_str());
                assert(line@ =~= lost_event(identity@, reason@));
                WorkerStep::Receive { log: Some(line) }
            },
            _ => WorkerStep::Stop,
        }
    }
}

/// What queueing an event comes to. It fails only where the worker is no longer
/// running and the event was not accepted.
pub fn queued(accepted: bool) -> (r: Result<(), MailError>)
    ensures
        accepted ==> r is Ok,
        !accepted ==> r is Err && r->Err_0.says(
            ErrorKind::ConnectionError,
            "ledger worker is not running"@,
        ),
{
    if accepted {
        Ok(())
    } else {
        Err(MailError::new(ErrorKind::ConnectionError, "ledger worker is not running"))
    }
}

/// Where a worker starts, and its first step.
pub open spec fn started() -> (WorkerView, WorkerStepView) {
    (WorkerView::Receiving, WorkerStepView::Receive { log: None })
}

/// Where the worker stands after a run of events from its start, and the step
/// that follows.
pub open spec fn after(events: Seq<WorkerEvent>) -> (WorkerView, WorkerStepView)
    decreases events.len(),
{
    if events.len() == 0 {
        started()
    } else {
        after(events.drop_last()).0.next(events.last())
    }
}

/// Whether each of the events can come of the step before it.
pub open spec fn expected(events: Seq<WorkerEvent>) -> bool
    decreases events.len(),
{
    events.len() > 0 ==> {
        &&& expected(events.drop_last())
        &&& after(events.drop_last()).0.expects(events.last())
    }
}

/// The events that were received in a run, in order.
pub open spec fn received(events: Seq<WorkerEvent>) -> Seq<EventText>
    decreases events.len(),
{
    if events.len() == 0 {
        seq![]
    } else {
        match events.last() {
            WorkerEvent::Received(event) => received(events.drop_last()).push(event@),
            _ => received(events.drop_last()),
        }
    }
}

/// The events that the worker had written in a run, or tried to, in order.
pub open spec fn attempted(events: Seq<WorkerEvent>) -> Seq<EventText>
    decreases events.len(),
{
    if events.len() == 0 {
        seq![]
    } else {
        match after(events).1 {
            WorkerStepView::Record(event) => attempted(events.drop_last()).push(event),
            _ => attempted(events.drop_last()),
        }
    }
}

/// Every event that is received is handed on to be written, once and in order,
/// and nothing else is.
pub proof fn law_every_event_is_written_once_in_order(events: Seq<WorkerEvent>)
    requires
        expected(events),
    ensures
        attempted(events) == received(events),
    decreases events.len(),
{
    if events.len() > 0 {
        law_every_event_is_written_once_in_order(events.drop_last());
    }
}

/// The work is over exactly when every handle is gone, and then nothing follows.
pub proof fn law_the_worker_runs_until_every_handle_is_gone(
    events: Seq<WorkerEvent>,
    event: WorkerEvent,
)
    requires
        expected(events),
    ensures
        after(events).1 is Stop <==> events.len() > 0 && events.last() is Closed,
        after(events).1 is Stop ==> !after(events).0.expects(event),
        after(events).1 is Stop <==> after(events).0 is Stopped,
    decreases events.len(),
{
    if events.len() > 0 {
        law_the_worker_runs_until_every_handle_is_gone(events.drop_last(), events.last());
    }
}

/// An event that could not be written is logged, with the name of its identity
/// and the reason, and then the worker stands where it would have stood had the
/// event been written.
pub proof fn law_a_failed_write_is_logged_and_skipped(
    events: Seq<WorkerEvent>,
    event: UsageEvent,
    reason: String,
)
    requires
        expected(events),
        after(events).0.expects(WorkerEvent::Received(event)),
    ensures
        ({
            let received = events.push(WorkerEvent::Received(event));
            let failed = received.push(WorkerEvent::Failed(reason));
            let recorded = received.push(WorkerEvent::Recorded);
            &&& expected(failed)
            &&& expected(recorded)
            &&& after(received).1 == WorkerStepView::Record(event@)
            &&& after(failed).0 == after(recorded).0
            &&& after(failed).1 == (WorkerStepView::Receive {
                log: Some(lost_event(event.identity@, reason@)),
            })
            &&& after(recorded).1 == (WorkerStepView::Receive { log: None })
        }),
{
    let received = events.push(WorkerEvent::Received(event));
    let failed = received.push(WorkerEvent::Failed(reason));
    let recorded = received.push(WorkerEvent::Recorded);
    assert(received.drop_last() =~= events);
    assert(failed.drop_last() =~= received);
    assert(recorded.drop_last() =~= received);
    assert(after(received) == after(events).0.next(received.last()));
    assert(expected(received));
    assert(after(failed) == after(received).0.next(failed.last()));
    assert(after(recorded) == after(received).0.next(recorded.last()));
}

/// Steps say what they hold: the whole line that is logged, and the event as it
/// came.
pub proof fn law_steps_say_what_they_hold(line: String, event: UsageEvent)
    ensures
        (WorkerStep::Receive { log: None })@ == (WorkerStepView::Receive { log: None }),
        (WorkerStep::Receive { log: Some(line) })@ == (WorkerStepView::Receive { log: Some(line@) }),
        WorkerStep::Record(event)@ == WorkerStepView::Record(event@),
        WorkerStep::Stop@ is Stop,
{
}

/// What the worker does about each event: it begins by waiting, has every event that
/// is received written as it came, waits again once that is done or has failed,
/// logs a failure with the name of the identity and the reason, and stops when
/// every handle is gone.
pub proof fn law_what_the_worker_does_about_each_event(
    event: UsageEvent,
    identity: Seq<char>,
    reason: String,
)
    ensures
        started() == (WorkerView::Receiving, WorkerStepView::Receive { log: None }),
        WorkerView::Receiving.next(WorkerEvent::Received(event)) == (
            WorkerView::Recording { identity: event.identity@ },
            WorkerStepView::Record(event@),
        ),
        WorkerView::Receiving.next(WorkerEvent::Closed) == (
            WorkerView::Stopped,
            WorkerStepView::Stop,
        ),
        (WorkerView::Recording { identity }).next(WorkerEvent::Recorded) == (
            WorkerView::Receiving,
            WorkerStepView::Receive { log: None },
        ),
        (WorkerView::Recording { identity }).next(WorkerEvent::Failed(reason)) == (
            WorkerView::Receiving,
            WorkerStepView::Receive {
                log: Some(
                    "ledger failed to record usage for '"@ + identity + "': "@ + reason@,
                ),
            },
        ),
{
}

/// At each stage some events can come and no others, and each of these is taken.
pub proof fn law_every_outcome_of_a_step_is_taken(
    worker: WorkerView,
    event: WorkerEvent,
    events: Seq<WorkerEvent>,
)
    ensures
        worker is Receiving ==> (worker.expects(event) <==> event is Received || event is Closed),
        worker is Recording ==> (worker.expects(event) <==> event is Recorded || event is Failed),
        worker is Stopped ==> !worker.expects(event),
        after(seq![]) == started(),
        after(events.push(event)) == after(events).0.next(event),
        expected(seq![]),
        expected(events.push(event)) <==> expected(events) && after(events).0.expects(event),
        received(seq![]) == Seq::<EventText>::empty(),
        event matches WorkerEvent::Received(sent) ==> received(events.push(event)) == received(
            events,
        ).push(sent@),
        !(event is Received) ==> received(events.push(event)) == received(events),
{
    assert(events.push(event).drop_last() =~= events);
}

} // verus!
