use apostle_client::bundle::Lookup;
use apostle_client::delivery::{Delivery, SendError, SendEvent, SendStep};
use apostle_client::error::{ErrorKind, MailError};
use apostle_client::{Email, MailBundle, MailServerConfig};

type Step = SendStep<u32>;
type Event = SendEvent<u32>;

fn email() -> Email {
    Email::new(
        "someone@example.com".to_string(),
        "Hello".to_string(),
        "World".to_string(),
    )
}

fn bundle(identity_secret: Option<[u8; 4]>) -> MailBundle {
    MailBundle {
        server_config: MailServerConfig::Addresses { addresses: vec![] },
        server_pub_key: [42; 32],
        identity_secret,
    }
}

fn candidates(list: &[&str]) -> Event {
    SendEvent::Resolved(Ok(list.iter().map(|a| a.to_string()).collect()))
}

fn refused(reason: &str) -> Event {
    SendEvent::Refused(reason.to_string())
}

fn started(identity_secret: Option<[u8; 4]>) -> Delivery {
    let (delivery, step): (Delivery, Step) = email().send(&bundle(identity_secret));
    assert!(matches!(step, SendStep::Resolve));
    delivery
}

fn error(step: Step) -> MailError {
    match step {
        SendStep::Finish(Err(SendError::Mail(err))) => err,
        _ => panic!("expected an error"),
    }
}

#[test]
fn nothing_is_done_for_a_message_with_something_missing() {
    for (destination, subject, body) in [("", "s", "b"), ("d", "", "b"), ("d", "s", "")] {
        let email = Email::new(
            destination.to_string(),
            subject.to_string(),
            body.to_string(),
        );
        let (_, step): (Delivery, Step) = email.send(&bundle(None));
        let err = error(step);
        assert_eq!(err.kind, ErrorKind::GeneralError);
        assert_eq!(err.message, "Invalid Email Data");
    }
}

#[test]
fn a_message_goes_to_the_first_candidate_that_accepts() {
    let mut delivery = started(Some([1, 2, 3, 4]));
    assert!(matches!(
        delivery.advance(candidates(&["a:1", "b:2", "c:3"])),
        SendStep::Connect(0)
    ));
    assert!(matches!(delivery.advance(refused("no")), SendStep::Connect(1)));
    let step: Step = delivery.advance(SendEvent::Connected);
    assert!(matches!(step, SendStep::Handshake(key) if key == [42; 32]));
    let step: Step = delivery.advance(SendEvent::Secured);
    match step {
        SendStep::Transmit(text) => assert_eq!(
            text,
            "{\"destination\":\"someone@example.com\",\"subject\":\"Hello\",\
             \"body\":\"World\",\"identity_secret\":[1,2,3,4]}"
        ),
        _ => panic!("expected the request"),
    }
    let step: Step = delivery.advance(SendEvent::Delivered);
    assert!(matches!(step, SendStep::Finish(Ok(()))));
}

#[test]
fn without_a_secret_the_plain_json_is_transmitted() {
    let mut delivery = started(None);
    delivery.advance(candidates(&["a:1"]));
    let _: Step = delivery.advance(SendEvent::Connected);
    let step: Step = delivery.advance(SendEvent::Secured);
    match step {
        SendStep::Transmit(text) => assert_eq!(text, email().to_json().unwrap()),
        _ => panic!("expected the request"),
    }
}

#[test]
fn where_no_candidate_accepts_the_last_error_stands() {
    let mut delivery = started(None);
    delivery.advance(candidates(&["a:1", "b:2"]));
    assert!(matches!(delivery.advance(refused("first")), SendStep::Connect(1)));
    let err = error(delivery.advance(refused("connection refused")));
    assert_eq!(err.kind, ErrorKind::ConnectionError);
    assert_eq!(
        err.message,
        "Failed to connect to mailserver: b:2. connection refused"
    );
}

#[test]
fn without_candidates_there_is_nothing_to_try() {
    let err = error(started(None).advance(candidates(&[])));
    assert_eq!(err.kind, ErrorKind::ConnectionError);
    assert_eq!(err.message, "no mailserver addresses to try");
}

fn unresolved(kind: ErrorKind, message: &str) -> MailError {
    let step: Step =
        started(None).advance(SendEvent::Resolved(Err(MailError::new(kind, message))));
    error(step)
}

#[test]
fn an_error_in_resolving_is_handed_on() {
    let err = unresolved(ErrorKind::ConfigParsing, "invalid address 'x': y");
    assert_eq!(err.kind, ErrorKind::ConfigParsing);
    assert_eq!(err.message, "invalid address 'x': y");
    let err = unresolved(ErrorKind::ConnectionError, "failed to resolve 'mail.example': z");
    assert_eq!(err.kind, ErrorKind::ConnectionError);
    assert_eq!(err.message, "failed to resolve 'mail.example': z");
}

#[test]
fn a_domain_without_addresses_is_a_connection_error_of_sending() {
    let config = MailServerConfig::Domain {
        domain: "mail.example".to_string(),
        port: 1827,
    };
    let err = config
        .resolve(Lookup::<String>::Resolved(Ok(vec![])))
        .unwrap_err();
    let step: Step = started(None).advance(SendEvent::Resolved(Err(err)));
    let err = error(step);
    assert_eq!(err.kind, ErrorKind::ConnectionError);
    assert_eq!(err.message, "no addresses found for 'mail.example'");
}

#[test]
fn an_empty_list_of_addresses_is_a_connection_error_of_sending() {
    let config = MailServerConfig::Addresses { addresses: vec![] };
    let resolved = config.resolve(Lookup::<String>::Parsed(vec![]));
    let step: Step = started(None).advance(SendEvent::Resolved(resolved));
    let err = error(step);
    assert_eq!(err.kind, ErrorKind::ConnectionError);
    assert_eq!(err.message, "no mailserver addresses to try");
}

#[test]
fn an_error_of_the_protocol_is_handed_on() {
    let mut delivery = started(None);
    delivery.advance(candidates(&["a:1"]));
    let _: Step = delivery.advance(SendEvent::Connected);
    let step = delivery.advance(SendEvent::Failed(7u32));
    assert!(matches!(step, SendStep::Finish(Err(SendError::Protocol(7)))));

    let mut delivery = started(None);
    delivery.advance(candidates(&["a:1"]));
    let _: Step = delivery.advance(SendEvent::Connected);
    let _: Step = delivery.advance(SendEvent::Secured);
    let step = delivery.advance(SendEvent::Failed(8u32));
    assert!(matches!(step, SendStep::Finish(Err(SendError::Protocol(8)))));
}
