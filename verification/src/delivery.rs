//! Sending a message: what is to be done next, given what came of the last step.
//!
//! A [`Delivery`] makes every decision that sending a message takes. Looking up
//! hosts, connecting, the handshake and the transfer are the caller's, which
//! performs each [`SendStep`] and reports back with a [`SendEvent`].

use vstd::prelude::*;

use crate::bundle::{Lookup, MailBundle, MailServerConfig};
use crate::email::{secret_bytes, Email, EmailText};
use crate::error::{ErrorKind, MailError};

verus! {

/// What to do next.
pub enum SendStep<E> {
    /// Find the candidate addresses of the mail server.
    Resolve,
    /// Connect to the candidate with that index.
    Connect(usize),
    /// Establish the protocol's connection, with the server that has that key.
    Handshake([u8; 32]),
    /// Transmit that text.
    Transmit(String),
    /// Nothing: sending is over, with that result.
    Finish(Result<(), SendError<E>>),
}

/// Why a message was not sent.
pub enum SendError<E> {
    /// This crate's own reason.
    Mail(MailError),
    /// What the protocol reported, as it is.
    Protocol(E),
}

/// What came of a step.
pub enum SendEvent<E> {
    /// The candidate addresses, as text, or why there are none.
    Resolved(Result<Vec<String>, MailError>),
    /// The candidate accepted the connection.
    Connected,
    /// The candidate could not be reached, for that reason.
    Refused(String),
    /// The protocol's connection stands.
    Secured,
    /// The text was transmitted.
    Delivered,
    /// The protocol failed.
    Failed(E),
}

enum Stage {
    Resolving,
    Connecting { candidates: Vec<String>, attempt: usize },
    Handshaking,
    Transmitting,
    Finished,
}

/// A message on its way.
pub struct Delivery {
    email: Email,
    identity_secret: Option<[u8; 4]>,
    server_pub_key: [u8; 32],
    stage: Stage,
}

/// How far a message has come.
pub enum StageView {
    Resolving,
    Connecting { candidates: Seq<Seq<char>>, attempt: int },
    Handshaking,
    Transmitting,
    Finished,
}

/// What a [`Delivery`] knows.
pub struct DeliveryView {
    pub email: EmailText,
    pub identity_secret: Option<Seq<u8>>,
    pub server_pub_key: Seq<u8>,
    pub stage: StageView,
}

/// What a [`SendStep`] says.
pub enum StepView<E> {
    Resolve,
    Connect(int),
    Handshake(Seq<u8>),
    Transmit(Seq<char>),
    Sent,
    NotSent(ErrorKind, Seq<char>),
    ProtocolError(E),
}

/// The texts in `v`.
pub open spec fn texts(v: Seq<String>) -> Seq<Seq<char>> {
    v.map_values(|s: String| s@)
}

impl View for Delivery {
    type V = DeliveryView;

    closed spec fn view(&self) -> DeliveryView {
        DeliveryView {
            email: self.email@,
            identity_secret: secret_bytes(self.identity_secret),
            server_pub_key: self.server_pub_key@,
            stage: match self.stage {
                Stage::Resolving => StageView::Resolving,
                Stage::Connecting { candidates, attempt } => StageView::Connecting {
                    candidates: texts(candidates@),
                    attempt: attempt as int,
                },
                Stage::Handshaking => StageView::Handshaking,
                Stage::Transmitting => StageView::Transmitting,
                Stage::Finished => StageView::Finished,
            },
        }
    }
}

impl<E> View for SendStep<E> {
    type V = StepView<E>;

    open spec fn view(&self) -> StepView<E> {
        match *self {
            SendStep::Resolve => StepView::Resolve,
            SendStep::Connect(i) => StepView::Connect(i as int),
            SendStep::Handshake(key) => StepView::Handshake(key@),
            SendStep::Transmit(text) => StepView::Transmit(text@),
            SendStep::Finish(Ok(())) => StepView::Sent,
            SendStep::Finish(Err(SendError::Mail(e))) => StepView::NotSent(e.kind, e.message@),
            SendStep::Finish(Err(SendError::Protocol(e))) => StepView::ProtocolError(e),
        }
    }
}

/// What is said about a candidate that could not be reached.
pub open spec fn unreachable_server(address: Seq<char>, reason: Seq<char>) -> Seq<char> {
    "Failed to connect to mailserver: "@ + address + ". "@ + reason
}

/// The kind of error that sending ends with where there are no candidates: a
/// host without addresses cannot be connected to.
pub open spec fn unresolved_kind(kind: ErrorKind) -> ErrorKind {
    if kind == ErrorKind::NotFound {
        ErrorKind::ConnectionError
    } else {
        kind
    }
}

impl DeliveryView {
    /// The same message at another stage.
    pub open spec fn at(self, stage: StageView) -> DeliveryView {
        DeliveryView { stage, ..self }
    }

    /// Whether a delivery is well formed: it tries a candidate that there is.
    pub open spec fn wf(self) -> bool {
        self.stage matches StageView::Connecting { candidates, attempt } ==> 0 <= attempt
            < candidates.len()
    }

    /// Whether the event can come of the step that this stage asked for.
    pub open spec fn expects<E>(self, event: SendEvent<E>) -> bool {
        match self.stage {
            StageView::Resolving => event is Resolved,
            StageView::Connecting { .. } => event is Connected || event is Refused,
            StageView::Handshaking => event is Secured || event is Failed,
            StageView::Transmitting => event is Delivered || event is Failed,
            StageView::Finished => false,
        }
    }

    /// A message that is to be sent, and the first step: nothing is done for a
    /// message with something missing.
    pub open spec fn start<E>(
        email: EmailText,
        identity_secret: Option<Seq<u8>>,
        server_pub_key: Seq<u8>,
    ) -> (DeliveryView, StepView<E>) {
        if email.sendable() {
            (
                DeliveryView {
                    email,
                    identity_secret,
                    server_pub_key,
                    stage: StageView::Resolving,
                },
                StepView::Resolve,
            )
        } else {
            (
                DeliveryView { email, identity_secret, server_pub_key, stage: StageView::Finished },
                StepView::NotSent(ErrorKind::GeneralError, "Invalid Email Data"@),
            )
        }
    }

    /// The stage and the step that follow on the event.
    pub open spec fn next<E>(self, event: SendEvent<E>) -> (DeliveryView, StepView<E>) {
        match (self.stage, event) {
            (StageView::Resolving, SendEvent::Resolved(Ok(candidates))) => if candidates@.len()
                > 0 {
                (
                    self.at(
                        StageView::Connecting { candidates: texts(candidates@), attempt: 0 },
                    ),
                    StepView::Connect(0),
                )
            } else {
                (
                    self.at(StageView::Finished),
                    StepView::NotSent(
                        ErrorKind::ConnectionError,
                        "no mailserver addresses to try"@,
                    ),
                )
            },
            (StageView::Resolving, SendEvent::Resolved(Err(e))) => (
                self.at(StageView::Finished),
                StepView::NotSent(unresolved_kind(e.kind), e.message@),
            ),
            (StageView::Connecting { .. }, SendEvent::Connected) => (
                self.at(StageView::Handshaking),
                StepView::Handshake(self.server_pub_key),
            ),
            (
                StageView::Connecting { candidates, attempt },
                SendEvent::Refused(reason),
            ) => if attempt + 1 < candidates.len() {
                (
                    self.at(StageView::Connecting { candidates, attempt: attempt + 1 }),
                    StepView::Connect(attempt + 1),
                )
            } else {
                (
                    self.at(StageView::Finished),
                    StepView::NotSent(
                        ErrorKind::ConnectionError,
                        unreachable_server(candidates[attempt], reason@),
                    ),
                )
            },
            (StageView::Handshaking, SendEvent::Secured) => (
                self.at(StageView::Transmitting),
                StepView::Transmit(self.email.request(self.identity_secret)),
            ),
            (StageView::Transmitting, SendEvent::Delivered) => (
                self.at(StageView::Finished),
                StepView::Sent,
            ),
            (_, SendEvent::Failed(e)) => (
                self.at(StageView::Finished),
                StepView::ProtocolError(e),
            ),
            _ => (self, StepView::Sent),
        }
    }
}

impl Email {
    /// Starts to send this message through the mail server of `bundle`.
    pub fn send<E>(&self, bundle: &MailBundle) -> (r: (Delivery, SendStep<E>))
        ensures
            (r.0@, r.1@) == DeliveryView::start::<E>(
                self@,
                secret_bytes(bundle.identity_secret),
                bundle.server_pub_key@,
            ),
            r.0@.wf(),
            r.1 is Resolve <==> self.destination@.len() > 0 && self.subject@.len() > 0
                && self.body@.len() > 0,
    {
        let email = Email {
            destination: self.destination.clone(),
            subject: self.subject.clone(),
            body: self.body.clone(),
        };
        let sendable: bool = self.is_sendable();
        let stage: Stage = if sendable {
            Stage::Resolving
        } else {
            Stage::Finished
        };
        let delivery = Delivery {
            email,
            identity_secret: bundle.identity_secret,
            server_pub_key: bundle.server_pub_key,
            stage,
        };
        if sendable {
            (delivery, SendStep::Resolve)
        } else {
            (
                delivery,
                SendStep::Finish(
                    Err(
                        SendError::Mail(
                            MailError::new(ErrorKind::GeneralError, "Invalid Email Data"),
                        ),
                    ),
                ),
            )
        }
    }
}

impl Delivery {
    /// Takes the message one step further.
    pub fn advance<E>(&mut self, event: SendEvent<E>) -> (r: SendStep<E>)
        requires
            old(self)@.wf(),
            old(self)@.expects(event),
        ensures
            (final(self)@, r@) == old(self)@.next(event),
            final(self)@.wf(),
    {
        let mut stage: Stage = Stage::Finished;
        std::mem::swap(&mut self.stage, &mut stage);
        match (stage, event) {
            (Stage::Resolving, SendEvent::Resolved(Ok(candidates))) => {
                if candidates.len() > 0 {
                    self.stage = Stage::Connecting { candidates, attempt: 0 };
                    SendStep::Connect(0)
                } else {
                    SendStep::Finish(
                        Err(
                            SendError::Mail(
                                MailError::new(
                                    ErrorKind::ConnectionError,
                                    "no mailserver addresses to try",
                                ),
                            ),
                        ),
                    )
                }
            },
            (Stage::Resolving, SendEvent::Resolved(Err(err))) => {
                let kind: ErrorKind = match err.kind {
                    ErrorKind::NotFound => ErrorKind::ConnectionError,
                    kind => kind,
                };
                SendStep::Finish(Err(SendError::Mail(MailError { kind, message: err.message })))
            },
            (Stage::Connecting { .. }, SendEvent::Connected) => {
                self.stage = Stage::Handshaking;
                SendStep::Handshake(self.server_pub_key)
            },
            (Stage::Connecting { candidates, attempt }, SendEvent::Refused(reason)) => {
                if candidates.len() - attempt > 1 {
                    self.stage = Stage::Connecting { candidates, attempt: attempt + 1 };
                    SendStep::Connect(attempt + 1)
                } else {
                    let mut message: String = String::new();
                    message.append("Failed to connect to mailserver: ");
                    message.append(candidates[attempt].as_str());
                    message.append(". ");
                    message.append(reason.as_str());
                    assert(message@ =~= unreachable_server(
                        texts(candidates@)[attempt as int],
                        reason@,
                    ));
                    SendStep::Finish(
                        Err(
                            SendError::Mail(
                                MailError { kind: ErrorKind::ConnectionError, message },
                            ),
                        ),
                    )
                }
            },
            (Stage::Handshaking, SendEvent::Secured) => {
                self.stage = Stage::Transmitting;
                match self.email.mail_request(self.identity_secret) {
                    Ok(text) => SendStep::Transmit(text),
                    Err(err) => SendStep::Finish(Err(SendError::Mail(err))),
                }
            },
            (Stage::Transmitting, SendEvent::Delivered) => SendStep::Finish(Ok(())),
            (_, SendEvent::Failed(err)) => SendStep::Finish(Err(SendError::Protocol(err))),
            _ => vstd::pervasive::unreached(),
        }
    }
}

/// The stage and the step after a run of events.
pub open spec fn run<E>(from: (DeliveryView, StepView<E>), events: Seq<SendEvent<E>>) -> (
    DeliveryView,
    StepView<E>,
)
    decreases events.len(),
{
    if events.len() == 0 {
        from
    } else {
        run(from, events.drop_last()).0.next(events.last())
    }
}

/// Whether each of the events can come of the step before it.
pub open spec fn expected<E>(from: (DeliveryView, StepView<E>), events: Seq<SendEvent<E>>) -> bool
    decreases events.len(),
{
    events.len() > 0 ==> {
        &&& expected(from, events.drop_last())
        &&& run(from, events.drop_last()).0.expects(events.last())
    }
}

/// A refusal for each of the reasons.
pub open spec fn refusals<E>(reasons: Seq<String>) -> Seq<SendEvent<E>> {
    reasons.map_values(|reason: String| SendEvent::<E>::Refused(reason))
}

/// Candidates are tried in order, each once: after as many refusals as there
/// are candidates before it, the next step is to connect to that candidate.
pub proof fn law_candidates_are_tried_in_order<E>(
    d: DeliveryView,
    candidates: Vec<String>,
    reasons: Seq<String>,
)
    requires
        d.stage is Resolving,
        reasons.len() < candidates@.len(),
    ensures
        run(d.next(SendEvent::<E>::Resolved(Ok(candidates))), refusals::<E>(reasons)) == (
            d.at(
                StageView::Connecting {
                    candidates: texts(candidates@),
                    attempt: reasons.len() as int,
                },
            ),
            StepView::<E>::Connect(reasons.len() as int),
        ),
        expected(d.next(SendEvent::<E>::Resolved(Ok(candidates))), refusals::<E>(reasons)),
    decreases reasons.len(),
{
    if reasons.len() > 0 {
        law_candidates_are_tried_in_order::<E>(d, candidates, reasons.drop_last());
        assert(refusals::<E>(reasons).drop_last() =~= refusals::<E>(reasons.drop_last()));
        assert(refusals::<E>(reasons).last() == SendEvent::<E>::Refused(reasons.last()));
    }
}

/// Where no candidate can be reached, the message is not sent, and the error is
/// that of the last candidate. Where there is no candidate at all, the error says
/// so.
pub proof fn law_without_a_reachable_candidate_the_last_error_stands<E>(
    d: DeliveryView,
    candidates: Vec<String>,
    reasons: Seq<String>,
)
    requires
        d.stage is Resolving,
        reasons.len() == candidates@.len(),
    ensures
        run(d.next(SendEvent::<E>::Resolved(Ok(candidates))), refusals::<E>(reasons)) == (
            d.at(StageView::Finished),
            StepView::<E>::NotSent(
                ErrorKind::ConnectionError,
                if reasons.len() == 0 {
                    "no mailserver addresses to try"@
                } else {
                    unreachable_server(candidates@.last()@, reasons.last()@)
                },
            ),
        ),
{
    if reasons.len() > 0 {
        law_candidates_are_tried_in_order::<E>(d, candidates, reasons.drop_last());
        assert(refusals::<E>(reasons).drop_last() =~= refusals::<E>(reasons.drop_last()));
        assert(refusals::<E>(reasons).last() == SendEvent::<E>::Refused(reasons.last()));
        assert(texts(candidates@)[reasons.len() - 1] == candidates@.last()@);
    }
}

/// The first candidate that accepts is the last that is tried: its connection is
/// established with the pinned key, what is transmitted is the message's request,
/// and with that the message is sent.
pub proof fn law_the_first_reachable_candidate_gets_the_message<E>(
    d: DeliveryView,
    candidates: Vec<String>,
    reasons: Seq<String>,
)
    requires
        d.stage is Resolving,
        reasons.len() < candidates@.len(),
    ensures
        ({
            let from = d.next(SendEvent::<E>::Resolved(Ok(candidates)));
            let tried = refusals::<E>(reasons);
            let connected = tried.push(SendEvent::Connected);
            let secured = connected.push(SendEvent::Secured);
            let delivered = secured.push(SendEvent::Delivered);
            &&& expected(from, delivered)
            &&& run(from, tried).1 == StepView::<E>::Connect(reasons.len() as int)
            &&& run(from, connected).1 == StepView::<E>::Handshake(d.server_pub_key)
            &&& run(from, secured).1 == StepView::<E>::Transmit(d.email.request(d.identity_secret))
            &&& run(from, delivered) == (d.at(StageView::Finished), StepView::<E>::Sent)
        }),
{
    let tried = refusals::<E>(reasons);
    let connected = tried.push(SendEvent::Connected);
    let secured = connected.push(SendEvent::Secured);
    let delivered = secured.push(SendEvent::Delivered);
    law_candidates_are_tried_in_order::<E>(d, candidates, reasons);
    let from = d.next(SendEvent::<E>::Resolved(Ok(candidates)));
    assert(connected.drop_last() =~= tried);
    assert(run(from, connected) == (
        d.at(StageView::Handshaking),
        StepView::<E>::Handshake(d.server_pub_key),
    ));
    assert(expected(from, connected));
    assert(secured.drop_last() =~= connected);
    assert(run(from, secured) == (
        d.at(StageView::Transmitting),
        StepView::<E>::Transmit(d.email.request(d.identity_secret)),
    ));
    assert(expected(from, secured));
    assert(delivered.drop_last() =~= secured);
    assert(run(from, delivered) == (d.at(StageView::Finished), StepView::<E>::Sent));
    assert(expected(from, delivered));
}

/// Where the domain of the mail server does not resolve, or has no addresses,
/// sending ends in a connection error, and no candidate is tried. So it does
/// where the list of addresses is empty.
pub proof fn law_an_unresolved_server_is_a_connection_error<A, E>(
    d: DeliveryView,
    config: MailServerConfig,
    lookup: Lookup<A>,
    err: MailError,
)
    requires
        d.stage is Resolving,
        config.answered_by(lookup),
        config.resolves_to(lookup, Err(err)),
        match config {
            MailServerConfig::Domain { .. } => true,
            MailServerConfig::Addresses { addresses } => addresses@.len() == 0,
        },
    ensures
        d.next(SendEvent::<E>::Resolved(Err(err))) == (
            d.at(StageView::Finished),
            StepView::<E>::NotSent(ErrorKind::ConnectionError, err.message@),
        ),
{
}

/// A message with something missing is never worked on: its delivery is over at
/// once, and no event can follow.
pub proof fn law_nothing_is_done_for_an_incomplete_message<E>(
    email: EmailText,
    identity_secret: Option<Seq<u8>>,
    server_pub_key: Seq<u8>,
    event: SendEvent<E>,
)
    requires
        !email.sendable(),
    ensures
        DeliveryView::start::<E>(email, identity_secret, server_pub_key).1 == StepView::<
            E,
        >::NotSent(ErrorKind::GeneralError, "Invalid Email Data"@),
        !DeliveryView::start::<E>(email, identity_secret, server_pub_key).0.expects(event),
{
}

/// Whatever happens on the way, the only text that is ever transmitted is the
/// request for the message, the only key that a server is held to is the pinned
/// one, and both only for a message with nothing missing.
pub proof fn law_only_the_request_is_transmitted<E>(
    email: EmailText,
    identity_secret: Option<Seq<u8>>,
    server_pub_key: Seq<u8>,
    events: Seq<SendEvent<E>>,
)
    requires
        expected(DeliveryView::start::<E>(email, identity_secret, server_pub_key), events),
    ensures
        ({
            let (d, step) = run(
                DeliveryView::start::<E>(email, identity_secret, server_pub_key),
                events,
            );
            &&& d.email == email
            &&& d.identity_secret == identity_secret
            &&& d.server_pub_key == server_pub_key
            &&& d.wf()
            &&& !email.sendable() ==> d.stage is Finished
            &&& step matches StepView::Transmit(text) ==> email.sendable() && text == email.request(
                identity_secret,
            )
            &&& step matches StepView::Handshake(key) ==> email.sendable() && key == server_pub_key
            &&& step is Sent ==> email.sendable() && events.len() > 0 && events.last() is Delivered
        }),
    decreases events.len(),
{
    if events.len() > 0 {
        law_only_the_request_is_transmitted(
            email,
            identity_secret,
            server_pub_key,
            events.drop_last(),
        );
    }
}

/// The events of resolving to those candidates and being refused for those
/// reasons.
pub open spec fn tried<E>(candidates: Vec<String>, reasons: Seq<String>) -> Seq<SendEvent<E>> {
    seq![SendEvent::<E>::Resolved(Ok(candidates))] + refusals::<E>(reasons)
}

/// A message is sent in one way only: its parts are all there, the candidates
/// are found, all that are tried refuse but one, which is the last that is
/// tried, the connection to it is secured, and the message is delivered. Nothing
/// else that can happen ends in the message being sent.
pub proof fn law_a_message_is_sent_in_one_way_only<E>(
    email: EmailText,
    identity_secret: Option<Seq<u8>>,
    server_pub_key: Seq<u8>,
    events: Seq<SendEvent<E>>,
)
    requires
        expected(DeliveryView::start::<E>(email, identity_secret, server_pub_key), events),
        run(DeliveryView::start::<E>(email, identity_secret, server_pub_key), events).1 is Sent,
    ensures
        email.sendable(),
        exists|candidates: Vec<String>, reasons: Seq<String>|
            {
                &&& reasons.len() < candidates@.len()
                &&& events == (#[trigger] tried::<E>(candidates, reasons)).push(
                    SendEvent::Connected,
                ).push(SendEvent::Secured).push(SendEvent::Delivered)
            },
{
    let from = DeliveryView::start::<E>(email, identity_secret, server_pub_key);
    law_only_the_request_is_transmitted(email, identity_secret, server_pub_key, events);
    let before = events.drop_last();
    lemma_how_far(email, identity_secret, server_pub_key, before);
    assert(run(from, before).0.stage is Transmitting);
    let (candidates, reasons) = choose|candidates: Vec<String>, reasons: Seq<String>|
        reasons.len() < candidates@.len() && before == (#[trigger] tried::<E>(
            candidates,
            reasons,
        )).push(SendEvent::Connected).push(SendEvent::Secured);
    assert(events =~= tried::<E>(candidates, reasons).push(SendEvent::Connected).push(
        SendEvent::Secured,
    ).push(SendEvent::Delivered));
}

/// What must have happened for a message to have come so far.
proof fn lemma_how_far<E>(
    email: EmailText,
    identity_secret: Option<Seq<u8>>,
    server_pub_key: Seq<u8>,
    events: Seq<SendEvent<E>>,
)
    requires
        expected(DeliveryView::start::<E>(email, identity_secret, server_pub_key), events),
    ensures
        ({
            let d = run(
                DeliveryView::start::<E>(email, identity_secret, server_pub_key),
                events,
            ).0;
            match d.stage {
                StageView::Resolving => events.len() == 0,
                StageView::Connecting { candidates: found, attempt } => exists|
                    candidates: Vec<String>,
                    reasons: Seq<String>,
                |
                    {
                        &&& reasons.len() == attempt
                        &&& attempt < candidates@.len()
                        &&& found == texts(candidates@)
                        &&& events == #[trigger] tried::<E>(candidates, reasons)
                    },
                StageView::Handshaking => exists|candidates: Vec<String>, reasons: Seq<String>|
                    reasons.len() < candidates@.len() && events == (#[trigger] tried::<E>(
                        candidates,
                        reasons,
                    )).push(SendEvent::Connected),
                StageView::Transmitting => exists|candidates: Vec<String>, reasons: Seq<String>|
                    reasons.len() < candidates@.len() && events == (#[trigger] tried::<E>(
                        candidates,
                        reasons,
                    )).push(SendEvent::Connected).push(SendEvent::Secured),
                StageView::Finished => true,
            }
        }),
    decreases events.len(),
{
    if events.len() > 0 {
        let from = DeliveryView::start::<E>(email, identity_secret, server_pub_key);
        let before = events.drop_last();
        lemma_how_far(email, identity_secret, server_pub_key, before);
        assert(events =~= before.push(events.last()));
        let d = run(from, before).0;
        match (d.stage, events.last()) {
            (StageView::Resolving, SendEvent::Resolved(Ok(candidates))) => {
                assert(events =~= tried::<E>(candidates, seq![]));
            },
            (
                StageView::Connecting { candidates: found, attempt },
                SendEvent::Refused(reason),
            ) => {
                let (candidates, reasons) = choose|
                    candidates: Vec<String>,
                    reasons: Seq<String>,
                |
                    {
                        &&& reasons.len() == attempt
                        &&& attempt < candidates@.len()
                        &&& found == texts(candidates@)
                        &&& before == #[trigger] tried::<E>(candidates, reasons)
                    };
                assert(refusals::<E>(reasons.push(reason)) =~= refusals::<E>(reasons).push(
                    SendEvent::<E>::Refused(reason),
                ));
                assert(events =~= tried::<E>(candidates, reasons.push(reason)));
            },
            _ => {},
        }
    }
}

/// Steps say what they hold: the index of a candidate, the whole key, the whole
/// text, and the result as it is.
pub proof fn law_steps_say_what_they_hold<E>(
    i: usize,
    key: [u8; 32],
    text: String,
    mail: MailError,
    protocol: E,
    candidates: Vec<String>,
    k: int,
)
    ensures
        SendStep::<E>::Resolve@ is Resolve,
        SendStep::<E>::Connect(i)@ == StepView::<E>::Connect(i as int),
        SendStep::<E>::Handshake(key)@ == StepView::<E>::Handshake(key@),
        SendStep::<E>::Transmit(text)@ == StepView::<E>::Transmit(text@),
        SendStep::<E>::Finish(Ok(()))@ is Sent,
        SendStep::<E>::Finish(Err(SendError::Mail(mail)))@ == StepView::<E>::NotSent(
            mail.kind,
            mail.message@,
        ),
        SendStep::<E>::Finish(Err(SendError::Protocol(protocol)))@ == StepView::<E>::ProtocolError(
            protocol,
        ),
        texts(candidates@).len() == candidates@.len(),
        0 <= k < candidates@.len() ==> texts(candidates@)[k] == candidates@[k]@,
{
}

/// Sending begins with the lookup of the server exactly where destination, subject
/// and body all have at least one character, however long they are; any other
/// message is refused at once. Nothing of the message, of the secret or of the key
/// is lost in beginning.
pub proof fn law_sending_begins_for_every_complete_message<E>(
    email: EmailText,
    identity_secret: Option<Seq<u8>>,
    server_pub_key: Seq<u8>,
)
    ensures
        ({
            let (d, step) = DeliveryView::start::<E>(email, identity_secret, server_pub_key);
            let complete = email.destination.len() > 0 && email.subject.len() > 0
                && email.body.len() > 0;
            &&& step is Resolve <==> complete
            &&& !complete ==> step == StepView::<E>::NotSent(
                ErrorKind::GeneralError,
                "Invalid Email Data"@,
            )
            &&& d.stage is Resolving <==> complete
            &&& d.stage is Finished <==> !complete
            &&& d.email.destination == email.destination
            &&& d.email.subject == email.subject
            &&& d.email.body == email.body
            &&& d.identity_secret == identity_secret
            &&& d.server_pub_key == server_pub_key
        }),
{
}

/// At each stage some events can come and no others, and each of these is taken.
pub proof fn law_every_outcome_of_a_step_is_taken<E>(d: DeliveryView, event: SendEvent<E>)
    ensures
        d.stage is Resolving ==> (d.expects(event) <==> event is Resolved),
        d.stage is Connecting ==> (d.expects(event) <==> event is Connected || event is Refused),
        d.stage is Handshaking ==> (d.expects(event) <==> event is Secured || event is Failed),
        d.stage is Transmitting ==> (d.expects(event) <==> event is Delivered || event is Failed),
        d.stage is Finished ==> !d.expects(event),
        !(d.stage is Connecting) ==> d.wf(),
        d.stage matches StageView::Connecting { candidates, attempt } ==> (d.wf() <==> 0 <= attempt
            < candidates.len()),
{
}

/// What becomes of the lookup. With candidates, the first of them is connected to,
/// and all are kept in their order. Without any, or where it failed, sending is
/// over, with the message of the failure and its kind, but that a host without
/// addresses is a connection error.
pub proof fn law_what_becomes_of_the_lookup<E>(
    d: DeliveryView,
    found: Result<Vec<String>, MailError>,
    k: int,
)
    requires
        d.stage is Resolving,
    ensures
        ({
            let (after, step) = d.next(SendEvent::<E>::Resolved(found));
            &&& found is Ok && found->Ok_0@.len() > 0 ==> {
                &&& step == StepView::<E>::Connect(0)
                &&& after.stage is Connecting
                &&& after.stage->attempt == 0
                &&& after.stage->candidates.len() == found->Ok_0@.len()
                &&& 0 <= k < found->Ok_0@.len() ==> after.stage->candidates[k] == found->Ok_0@[k]@
            }
            &&& found is Ok && found->Ok_0@.len() == 0 ==> after.stage is Finished && step
                == StepView::<E>::NotSent(
                ErrorKind::ConnectionError,
                "no mailserver addresses to try"@,
            )
            &&& found is Err && found->Err_0.kind is NotFound ==> after.stage is Finished && step
                == StepView::<E>::NotSent(ErrorKind::ConnectionError, found->Err_0.message@)
            &&& found is Err && !(found->Err_0.kind is NotFound) ==> after.stage is Finished && step
                == StepView::<E>::NotSent(found->Err_0.kind, found->Err_0.message@)
        }),
{
}

/// What becomes of trying a candidate. Where it accepts, the handshake is with the
/// pinned key. Where it refuses, the next one is tried; behind the last one sending
/// is over, with an error that names that candidate and its reason.
pub proof fn law_what_becomes_of_a_candidate<E>(d: DeliveryView, reason: String)
    requires
        d.stage is Connecting,
    ensures
        ({
            let candidates = d.stage->candidates;
            let attempt = d.stage->attempt;
            let (after, step) = d.next(SendEvent::<E>::Refused(reason));
            &&& attempt + 1 < candidates.len() ==> step == StepView::<E>::Connect(attempt + 1)
                && after.stage == (StageView::Connecting { candidates, attempt: attempt + 1 })
            &&& attempt + 1 >= candidates.len() ==> after.stage is Finished && step == StepView::<
                E,
            >::NotSent(
                ErrorKind::ConnectionError,
                "Failed to connect to mailserver: "@ + candidates[attempt] + ". "@ + reason@,
            )
        }),
        d.next(SendEvent::<E>::Connected).0.stage is Handshaking,
        d.next(SendEvent::<E>::Connected).1 == StepView::<E>::Handshake(d.server_pub_key),
{
}

/// What becomes of a connection. Once it is secured, the request for the message is
/// transmitted; once that is delivered, the message is sent. A failure of the
/// protocol ends sending, and is handed on as it is.
pub proof fn law_what_becomes_of_a_connection<E>(d: DeliveryView, err: E)
    ensures
        d.stage is Handshaking ==> d.next(SendEvent::<E>::Secured).0.stage is Transmitting && d.next(
            SendEvent::<E>::Secured,
        ).1 == StepView::<E>::Transmit(d.email.request(d.identity_secret)),
        d.stage is Transmitting ==> d.next(SendEvent::<E>::Delivered).0.stage is Finished && d.next(
            SendEvent::<E>::Delivered,
        ).1 is Sent,
        d.stage is Handshaking || d.stage is Transmitting ==> d.next(
            SendEvent::<E>::Failed(err),
        ).0.stage is Finished && d.next(SendEvent::<E>::Failed(err)).1 == StepView::<
            E,
        >::ProtocolError(err),
{
}

/// Whatever comes of a step, the message, the secret and the key stay what they
/// are.
pub proof fn law_what_is_sent_does_not_change_on_the_way<E>(d: DeliveryView, event: SendEvent<E>)
    requires
        d.expects(event),
    ensures
        d.next(event).0.email == d.email,
        d.next(event).0.identity_secret == d.identity_secret,
        d.next(event).0.server_pub_key == d.server_pub_key,
{
}

/// A run of events is taken one by one, in order.
pub proof fn law_a_run_is_taken_event_by_event<E>(
    from: (DeliveryView, StepView<E>),
    events: Seq<SendEvent<E>>,
    event: SendEvent<E>,
    reasons: Seq<String>,
    k: int,
)
    ensures
        run(from, seq![]) == from,
        run(from, events.push(event)) == run(from, events).0.next(event),
        expected(from, seq![]),
        expected(from, events.push(event)) <==> expected(from, events) && run(
            from,
            events,
        ).0.expects(event),
        refusals::<E>(reasons).len() == reasons.len(),
        0 <= k < reasons.len() ==> refusals::<E>(reasons)[k] == SendEvent::<E>::Refused(reasons[k]),
{
    assert(events.push(event).drop_last() =~= events);
}

} // verus!
