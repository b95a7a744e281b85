use apostle_client::error::ErrorKind;
use apostle_client::worker::{queued, WorkerEvent, WorkerStep};
use apostle_client::{Ledger, LedgerWorker, UsageEvent};
use tokio::sync::mpsc;

fn event(identity: &str, recipient: &str) -> UsageEvent {
    UsageEvent::new(
        identity.to_string(),
        recipient.to_string(),
        "Hi".to_string(),
        true,
    )
}

/// Runs a worker on the events of a channel and gives back the recipients of the
/// events it had written, in order, and the lines it had logged. Writes to the
/// recipients in `failing` fail.
async fn drain(
    mut rx: mpsc::Receiver<UsageEvent>,
    ledger: &mut Ledger,
    failing: &[&str],
) -> Vec<String> {
    let mut lines = Vec::new();
    let (mut worker, mut step) = LedgerWorker::run();
    loop {
        let event = match step {
            WorkerStep::Receive { log } => {
                lines.extend(log);
                match rx.recv().await {
                    Some(event) => WorkerEvent::Received(event),
                    None => WorkerEvent::Closed,
                }
            }
            WorkerStep::Record(event) => {
                if failing.contains(&event.recipient.as_str()) {
                    WorkerEvent::Failed("disk full".to_string())
                } else {
                    ledger.record_usage(&event, "now");
                    WorkerEvent::Recorded
                }
            }
            WorkerStep::Stop => return lines,
        };
        step = worker.advance(event);
    }
}

#[test]
fn channel_and_worker_deliver_events() {
    let runtime = tokio::runtime::Runtime::new().unwrap();
    let mut ledger = Ledger::open(vec![], vec![]).unwrap();
    runtime.block_on(async {
        let (tx, rx) = mpsc::channel(8);
        tx.send(UsageEvent::new(
            "a@example.com".to_string(),
            "b@example.com".to_string(),
            "Hi".to_string(),
            true,
        ))
        .await
        .unwrap();
        tx.send(UsageEvent::new(
            "a@example.com".to_string(),
            "c@example.com".to_string(),
            "Also hi".to_string(),
            true,
        ))
        .await
        .unwrap();
        drop(tx); // lets the worker's loop end
        let lines = drain(rx, &mut ledger, &[]).await;
        assert!(lines.is_empty());
    });

    let report = ledger.report("a@example.com");
    assert_eq!(report.len(), 2);
    assert!(report.iter().all(|r| r.success));
    assert_eq!(report[0].recipient, "b@example.com");
    assert_eq!(report[1].subject, "Also hi");
}

#[test]
fn a_failed_write_is_logged_and_the_rest_is_written() {
    let runtime = tokio::runtime::Runtime::new().unwrap();
    let mut ledger = Ledger::open(vec![], vec![]).unwrap();
    let lines = runtime.block_on(async {
        let (tx, rx) = mpsc::channel(8);
        for recipient in ["1", "2", "3"] {
            tx.send(event("a@example.com", recipient)).await.unwrap();
        }
        drop(tx);
        drain(rx, &mut ledger, &["2"]).await
    });
    assert_eq!(
        lines,
        ["ledger failed to record usage for 'a@example.com': disk full"]
    );
    let recipients: Vec<String> = ledger
        .report("a@example.com")
        .into_iter()
        .map(|r| r.recipient)
        .collect();
    assert_eq!(recipients, ["1", "3"]);
}

#[test]
fn a_worker_without_events_stops_when_the_handles_are_gone() {
    let (mut worker, step) = LedgerWorker::run();
    assert!(matches!(step, WorkerStep::Receive { log: None }));
    assert!(matches!(worker.advance(WorkerEvent::Closed), WorkerStep::Stop));
}

#[test]
fn the_worker_hands_on_the_event_as_it_came() {
    let (mut worker, _) = LedgerWorker::run();
    match worker.advance(WorkerEvent::Received(event("a", "b"))) {
        WorkerStep::Record(event) => {
            assert_eq!(event.identity, "a");
            assert_eq!(event.recipient, "b");
            assert_eq!(event.subject, "Hi");
            assert!(event.success);
        }
        _ => panic!("an event is to be recorded"),
    }
    assert!(matches!(
        worker.advance(WorkerEvent::Recorded),
        WorkerStep::Receive { log: None }
    ));
}

#[test]
fn queueing_fails_only_without_a_worker() {
    assert!(queued(true).is_ok());
    let err = queued(false).unwrap_err();
    assert_eq!(err.kind, ErrorKind::ConnectionError);
    assert_eq!(err.message, "ledger worker is not running");
}
