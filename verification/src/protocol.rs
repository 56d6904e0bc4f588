//! The claim/acknowledgment handshake as a state machine.
//!
//! The machine performs no transport work itself. It names the next piece of
//! outside work as an [`Action`], and is told how that work ended by an
//! [`Event`]. One machine settles one obligation over one connection.

use vstd::prelude::*;
use crate::message::{
    ClaimRequest, ClaimRequestView, Incoming, IncomingView, MessageKind, Outgoing, OutgoingView,
};

verus! {

/// How a piece of transport work can go wrong.
#[derive(Clone, Copy, Debug, PartialEq, Eq, Structural)]
pub enum Fault {
    /// The connection could not be opened, written to or read from.
    Connectivity,
    /// The peer sent something that is not part of the handshake.
    Protocol,
    /// The configured bound passed without an answer.
    Timeout,
}

/// Why a handshake did not settle its obligation.
#[derive(Clone, Copy, Debug, PartialEq, Eq, Structural)]
pub enum Failure {
    Connectivity,
    Protocol,
    Timeout,
    /// The counterparty answered the claim with `success == false`.
    ClaimRejected,
    /// The counterparty answered the acknowledgment with `success == false`.
    AckRejected,
}

/// How a handshake ended.
#[derive(Clone, Copy, Debug, PartialEq, Eq, Structural)]
pub enum Outcome {
    Settled,
    Failed(Failure),
}

/// The states of the handshake. `Settled` and `Failed` are terminal.
#[derive(Clone, Copy, Debug, PartialEq, Eq, Structural)]
pub enum Phase {
    Disconnected,
    Connected,
    ClaimSent,
    AwaitingClaimAck,
    ClaimAcknowledged,
    AckSent,
    AwaitingAckConfirmation,
    Settled,
    Failed(Failure),
}

/// What has become of the machine's one connection.
#[derive(Clone, Copy, Debug, PartialEq, Eq, Structural)]
pub enum Link {
    Unopened,
    Open,
    Released,
}

/// Mathematical content of an [`Event`].
pub enum EventView {
    Opened,
    Sent,
    Received(IncomingView),
    Closed,
    Failed(Fault),
}

/// How the outside work named by the last [`Action`] ended.
#[derive(Debug, PartialEq, Eq)]
pub enum Event {
    /// The connection is open.
    Opened,
    /// The message was written.
    Sent,
    /// One frame arrived.
    Received(Incoming),
    /// The connection is closed.
    Closed,
    /// The work failed.
    Failed(Fault),
}

impl View for Event {
    type V = EventView;

    open spec fn view(&self) -> EventView {
        match self {
            Event::Opened => EventView::Opened,
            Event::Sent => EventView::Sent,
            Event::Received(frame) => EventView::Received(frame@),
            Event::Closed => EventView::Closed,
            Event::Failed(fault) => EventView::Failed(*fault),
        }
    }
}

/// Mathematical content of an [`Action`].
pub enum ActionView {
    Open { endpoint: Seq<char>, timeout_ms: nat },
    Send { message: OutgoingView, timeout_ms: nat },
    Receive { expecting: MessageKind, timeout_ms: nat },
    Close,
    Done(Outcome),
}

/// The outside work that the machine asks for next. Work that can stall
/// carries the bound within which it must end.
#[derive(Debug, PartialEq, Eq)]
pub enum Action {
    /// Open a connection to `endpoint`.
    Open { endpoint: String, timeout_ms: u64 },
    /// Write `message`.
    Send { message: Outgoing, timeout_ms: u64 },
    /// Wait for exactly one frame, which should hold the response to the
    /// message of kind `expecting`.
    Receive { expecting: MessageKind, timeout_ms: u64 },
    /// Close the connection.
    Close,
    /// Nothing is left to do.
    Done(Outcome),
}

impl View for Action {
    type V = ActionView;

    open spec fn view(&self) -> ActionView {
        match self {
            Action::Open { endpoint, timeout_ms } => ActionView::Open {
                endpoint: endpoint@,
                timeout_ms: *timeout_ms as nat,
            },
            Action::Send { message, timeout_ms } => ActionView::Send {
                message: message@,
                timeout_ms: *timeout_ms as nat,
            },
            Action::Receive { expecting, timeout_ms } => ActionView::Receive {
                expecting: *expecting,
                timeout_ms: *timeout_ms as nat,
            },
            Action::Close => ActionView::Close,
            Action::Done(outcome) => ActionView::Done(*outcome),
        }
    }
}

/// Mathematical content of a [`SettlementProtocolClient`].
pub struct ClientView {
    pub phase: Phase,
    pub link: Link,
    pub endpoint: Seq<char>,
    pub timeout_ms: nat,
    pub request: ClaimRequestView,
    pub ack_id: Seq<char>,
}

/// Drives the handshake for one claim.
#[derive(Debug, PartialEq, Eq)]
pub struct SettlementProtocolClient {
    pub phase: Phase,
    pub link: Link,
    pub endpoint: String,
    pub timeout_ms: u64,
    pub request: ClaimRequest,
    pub ack_id: String,
}

impl View for SettlementProtocolClient {
    type V = ClientView;

    open spec fn view(&self) -> ClientView {
        ClientView {
            phase: self.phase,
            link: self.link,
            endpoint: self.endpoint@,
            timeout_ms: self.timeout_ms as nat,
            request: self.request@,
            ack_id: self.ack_id@,
        }
    }
}

/// A state from which the handshake goes no further.
pub open spec fn is_terminal(phase: Phase) -> bool {
    phase is Settled || phase is Failed
}

/// The failure that a transport fault amounts to.
pub open spec fn failure_of(fault: Fault) -> Failure {
    match fault {
        Fault::Connectivity => Failure::Connectivity,
        Fault::Protocol => Failure::Protocol,
        Fault::Timeout => Failure::Timeout,
    }
}

/// The outcome that a terminal state stands for.
pub open spec fn outcome_of(phase: Phase) -> Outcome
    recommends
        is_terminal(phase),
{
    match phase {
        Phase::Failed(failure) => Outcome::Failed(failure),
        _ => Outcome::Settled,
    }
}

/// The event is a claim response that reports success.
pub open spec fn claim_accepted(event: EventView) -> bool {
    event matches EventView::Received(IncomingView::Claim(response)) && response.success
}

/// The event is a claim response that reports failure.
pub open spec fn claim_rejected(event: EventView) -> bool {
    event matches EventView::Received(IncomingView::Claim(response)) && !response.success
}

/// The event is an acknowledgment response that reports success.
pub open spec fn ack_accepted(event: EventView) -> bool {
    event matches EventView::Received(IncomingView::Ack(response)) && response.success
}

/// The event is an acknowledgment response that reports failure.
pub open spec fn ack_rejected(event: EventView) -> bool {
    event matches EventView::Received(IncomingView::Ack(response)) && !response.success
}

/// The state that a non-terminal state moves to when `event` arrives.
///
/// A fault fails the handshake in any state. Otherwise each state accepts
/// the one event that its pending work ends with, and anything else is a
/// protocol failure.
pub open spec fn next_phase(phase: Phase, event: EventView) -> Phase {
    match event {
        EventView::Failed(fault) => Phase::Failed(failure_of(fault)),
        _ => match phase {
            Phase::Disconnected => if event is Opened {
                Phase::Connected
            } else {
                Phase::Failed(Failure::Protocol)
            },
            Phase::Connected => if event is Sent {
                Phase::ClaimSent
            } else {
                Phase::Failed(Failure::Protocol)
            },
            Phase::AwaitingClaimAck => if claim_accepted(event) {
                Phase::ClaimAcknowledged
            } else if claim_rejected(event) {
                Phase::Failed(Failure::ClaimRejected)
            } else {
                Phase::Failed(Failure::Protocol)
            },
            Phase::ClaimAcknowledged => if event is Sent {
                Phase::AckSent
            } else {
                Phase::Failed(Failure::Protocol)
            },
            Phase::AwaitingAckConfirmation => if ack_accepted(event) {
                Phase::Settled
            } else if ack_rejected(event) {
                Phase::Failed(Failure::AckRejected)
            } else {
                Phase::Failed(Failure::Protocol)
            },
            Phase::ClaimSent | Phase::AckSent => Phase::Failed(Failure::Protocol),
            Phase::Settled | Phase::Failed(_) => phase,
        },
    }
}

/// The machine after `event` has arrived.
///
/// In a terminal state the only thing left is to release the connection:
/// whatever arrives once the connection is open counts as its release.
pub open spec fn after_event(client: ClientView, event: EventView) -> ClientView {
    if is_terminal(client.phase) {
        ClientView {
            link: if client.link is Open {
                Link::Released
            } else {
                client.link
            },
            ..client
        }
    } else {
        ClientView {
            phase: next_phase(client.phase, event),
            link: if client.phase is Disconnected && event is Opened {
                Link::Open
            } else {
                client.link
            },
            ack_id: match event {
                EventView::Received(IncomingView::Claim(response)) => if client.phase
                    is AwaitingClaimAck && response.success {
                    response.ack_id
                } else {
                    client.ack_id
                },
                _ => client.ack_id,
            },
            ..client
        }
    }
}

/// The work that is due in the machine's state, and the machine once that
/// work has been asked for.
pub open spec fn issue(client: ClientView) -> (ClientView, ActionView) {
    match client.phase {
        Phase::Disconnected => (
            client,
            ActionView::Open { endpoint: client.endpoint, timeout_ms: client.timeout_ms },
        ),
        Phase::Connected => (
            client,
            ActionView::Send {
                message: OutgoingView::Claim(client.request),
                timeout_ms: client.timeout_ms,
            },
        ),
        Phase::ClaimSent => (
            ClientView { phase: Phase::AwaitingClaimAck, ..client },
            ActionView::Receive { expecting: MessageKind::Claim, timeout_ms: client.timeout_ms },
        ),
        Phase::AwaitingClaimAck => (
            client,
            ActionView::Receive { expecting: MessageKind::Claim, timeout_ms: client.timeout_ms },
        ),
        Phase::ClaimAcknowledged => (
            client,
            ActionView::Send {
                message: OutgoingView::Ack { ack_id: client.ack_id },
                timeout_ms: client.timeout_ms,
            },
        ),
        Phase::AckSent => (
            ClientView { phase: Phase::AwaitingAckConfirmation, ..client },
            ActionView::Receive { expecting: MessageKind::Ack, timeout_ms: client.timeout_ms },
        ),
        Phase::AwaitingAckConfirmation => (
            client,
            ActionView::Receive { expecting: MessageKind::Ack, timeout_ms: client.timeout_ms },
        ),
        Phase::Settled | Phase::Failed(_) => if client.link is Open {
            (client, ActionView::Close)
        } else {
            (client, ActionView::Done(outcome_of(client.phase)))
        },
    }
}

/// One turn of the machine: take in `event`, then name the next work.
pub open spec fn client_step(client: ClientView, event: EventView) -> (ClientView, ActionView) {
    issue(after_event(client, event))
}

/// A machine that has done nothing yet.
pub open spec fn initial_client(
    endpoint: Seq<char>,
    timeout_ms: nat,
    request: ClaimRequestView,
) -> ClientView {
    ClientView {
        phase: Phase::Disconnected,
        link: Link::Unopened,
        endpoint,
        timeout_ms,
        request,
        ack_id: Seq::empty(),
    }
}

/// The machine after a sequence of events, each answered by one turn.
pub open spec fn client_run(client: ClientView, events: Seq<EventView>) -> ClientView
    decreases events.len(),
{
    if events.len() == 0 {
        client
    } else {
        client_step(client_run(client, events.drop_last()), events.last()).0
    }
}

/// The action with which the machine answers event `k` of `events`.
pub open spec fn client_action(client: ClientView, events: Seq<EventView>, k: int) -> ActionView
    recommends
        0 <= k < events.len(),
{
    client_step(client_run(client, events.take(k)), events[k]).1
}

impl SettlementProtocolClient {
    /// A machine for `request`, to be settled at `endpoint`, that has done
    /// nothing yet.
    pub fn new(endpoint: String, timeout_ms: u64, request: ClaimRequest) -> (client: Self)
        ensures
            client@ == initial_client(endpoint@, timeout_ms as nat, request@),
    {
        SettlementProtocolClient {
            phase: Phase::Disconnected,
            link: Link::Unopened,
            endpoint,
            timeout_ms,
            request,
            ack_id: String::new(),
        }
    }

    /// Names the first piece of work.
    pub fn start(&mut self) -> (action: Action)
        ensures
            (final(self)@, action@) == issue(old(self)@),
    {
        self.issue_next()
    }

    /// Takes in how the last piece of work ended and names the next.
    pub fn step(&mut self, event: Event) -> (action: Action)
        ensures
            (final(self)@, action@) == client_step(old(self)@, event@),
    {
        self.take_in(event);
        self.issue_next()
    }

    /// Whether the handshake has ended and its connection is released, and
    /// how it ended.
    pub fn outcome(&self) -> (outcome: Option<Outcome>)
        ensures
            outcome == finished_outcome(self@),
    {
        match self.link {
            Link::Open => None,
            _ => match self.phase {
                Phase::Settled => Some(Outcome::Settled),
                Phase::Failed(failure) => Some(Outcome::Failed(failure)),
                _ => None,
            },
        }
    }

    fn take_in(&mut self, event: Event)
        ensures
            final(self)@ == after_event(old(self)@, event@),
    {
        match self.phase {
            Phase::Settled | Phase::Failed(_) => {
                match self.link {
                    Link::Open => {
                        self.link = Link::Released;
                    },
                    _ => {},
                }
                return ;
            },
            _ => {},
        }
        match event {
            Event::Failed(fault) => {
                self.phase = Phase::Failed(failure_for(fault));
            },
            Event::Opened => {
                match self.phase {
                    Phase::Disconnected => {
                        self.phase = Phase::Connected;
                        self.link = Link::Open;
                    },
                    _ => {
                        self.phase = Phase::Failed(Failure::Protocol);
                    },
                }
            },
            Event::Sent => {
                match self.phase {
                    Phase::Connected => {
                        self.phase = Phase::ClaimSent;
                    },
                    Phase::ClaimAcknowledged => {
                        self.phase = Phase::AckSent;
                    },
                    _ => {
                        self.phase = Phase::Failed(Failure::Protocol);
                    },
                }
            },
            Event::Received(Incoming::Claim(response)) => {
                match self.phase {
                    Phase::AwaitingClaimAck => {
                        if response.success {
                            self.phase = Phase::ClaimAcknowledged;
                            self.ack_id = response.ack_id;
                        } else {
                            self.phase = Phase::Failed(Failure::ClaimRejected);
                        }
                    },
                    _ => {
                        self.phase = Phase::Failed(Failure::Protocol);
                    },
                }
            },
            Event::Received(Incoming::Ack(response)) => {
                match self.phase {
                    Phase::AwaitingAckConfirmation => {
                        if response.success {
                            self.phase = Phase::Settled;
                        } else {
                            self.phase = Phase::Failed(Failure::AckRejected);
                        }
                    },
                    _ => {
                        self.phase = Phase::Failed(Failure::Protocol);
                    },
                }
            },
            Event::Received(Incoming::Undecodable) | Event::Closed => {
                self.phase = Phase::Failed(Failure::Protocol);
            },
        }
    }

    fn issue_next(&mut self) -> (action: Action)
        ensures
            (final(self)@, action@) == issue(old(self)@),
    {
        match self.phase {
            Phase::Disconnected => Action::Open {
                endpoint: self.endpoint.clone(),
                timeout_ms: self.timeout_ms,
            },
            Phase::Connected => Action::Send {
                message: Outgoing::Claim(self.request.clone()),
                timeout_ms: self.timeout_ms,
            },
            Phase::ClaimSent => {
                self.phase = Phase::AwaitingClaimAck;
                Action::Receive { expecting: MessageKind::Claim, timeout_ms: self.timeout_ms }
            },
            Phase::AwaitingClaimAck => Action::Receive {
                expecting: MessageKind::Claim,
                timeout_ms: self.timeout_ms,
            },
            Phase::ClaimAcknowledged => Action::Send {
                message: Outgoing::Ack { ack_id: self.ack_id.clone() },
                timeout_ms: self.timeout_ms,
            },
            Phase::AckSent => {
                self.phase = Phase::AwaitingAckConfirmation;
                Action::Receive { expecting: MessageKind::Ack, timeout_ms: self.timeout_ms }
            },
            Phase::AwaitingAckConfirmation => Action::Receive {
                expecting: MessageKind::Ack,
                timeout_ms: self.timeout_ms,
            },
            Phase::Settled => match self.link {
                Link::Open => Action::Close,
                _ => Action::Done(Outcome::Settled),
            },
            Phase::Failed(failure) => match self.link {
                Link::Open => Action::Close,
                _ => Action::Done(Outcome::Failed(failure)),
            },
        }
    }
}

/// The outcome of a machine that has ended and released its connection.
pub open spec fn finished_outcome(client: ClientView) -> Option<Outcome> {
    if is_terminal(client.phase) && !(client.link is Open) {
        Some(outcome_of(client.phase))
    } else {
        None
    }
}

/// The failure that a transport fault amounts to.
pub fn failure_for(fault: Fault) -> (failure: Failure)
    ensures
        failure == failure_of(fault),
{
    match fault {
        Fault::Connectivity => Failure::Connectivity,
        Fault::Protocol => Failure::Protocol,
        Fault::Timeout => Failure::Timeout,
    }
}

} // verus!
