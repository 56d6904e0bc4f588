//! What holds of every run of the handshake machine.

use vstd::prelude::*;
use crate::message::{ClaimRequestView, OutgoingView};
use crate::protocol::{
    ack_accepted, claim_accepted, claim_rejected, client_action, client_run, client_step,
    initial_client, is_terminal, issue, outcome_of, ActionView, ClientView, EventView, Failure,
    Phase,
};

verus! {

/// The action asks for nothing but the release of the connection or the end.
pub open spec fn winds_down(action: ActionView) -> bool {
    action is Close || action is Done
}

/// The state in which the machine rests after `n` events of a handshake that
/// goes well.
pub open spec fn resting_phase(n: int) -> Phase {
    if n <= 0 {
        Phase::Disconnected
    } else if n == 1 {
        Phase::Connected
    } else if n == 2 {
        Phase::AwaitingClaimAck
    } else if n == 3 {
        Phase::ClaimAcknowledged
    } else if n == 4 {
        Phase::AwaitingAckConfirmation
    } else {
        Phase::Settled
    }
}

/// Event `k` of a handshake that goes well: the connection opens, the claim
/// is sent and accepted, the acknowledgment is sent and accepted.
pub open spec fn script_event(k: int, event: EventView) -> bool {
    if k == 0 {
        event is Opened
    } else if k == 1 {
        event is Sent
    } else if k == 2 {
        claim_accepted(event)
    } else if k == 3 {
        event is Sent
    } else if k == 4 {
        ack_accepted(event)
    } else {
        true
    }
}

/// The first `n` events are those of a handshake that goes well.
pub open spec fn on_script(events: Seq<EventView>, n: int) -> bool {
    forall|k: int| 0 <= k < n && k < events.len() ==> script_event(k, #[trigger] events[k])
}

/// The five events that settle an obligation, in their order.
pub open spec fn settling_script(events: Seq<EventView>) -> bool {
    &&& events.len() >= 5
    &&& events[0] is Opened
    &&& events[1] is Sent
    &&& claim_accepted(events[2])
    &&& events[3] is Sent
    &&& ack_accepted(events[4])
}

/// A turn never changes what the machine was made with.
pub proof fn lemma_step_keeps_request(client: ClientView, event: EventView)
    ensures
        client_step(client, event).0.request == client.request,
        client_step(client, event).0.endpoint == client.endpoint,
        client_step(client, event).0.timeout_ms == client.timeout_ms,
{
}

/// A terminal state is never left, and all that the machine asks for in it
/// is the release of its connection and then the end, with the outcome that
/// the state stands for.
pub proof fn lemma_terminal_absorbs(client: ClientView, events: Seq<EventView>)
    requires
        is_terminal(client.phase),
    ensures
        client_run(client, events).phase == client.phase,
        forall|k: int|
            0 <= k < events.len() ==> winds_down(#[trigger] client_action(client, events, k)),
        forall|k: int|
            0 <= k < events.len() && (#[trigger] client_action(client, events, k)) is Done
                ==> client_action(client, events, k) == ActionView::Done(
                outcome_of(client.phase),
            ),
    decreases events.len(),
{
    if events.len() > 0 {
        lemma_terminal_absorbs(client, events.drop_last());
        assert forall|k: int| 0 <= k < events.len() implies winds_down(
            #[trigger] client_action(client, events, k),
        ) && (client_action(client, events, k) is Done ==> client_action(client, events, k)
            == ActionView::Done(outcome_of(client.phase))) by {
            lemma_terminal_absorbs(client, events.take(k));
        }
    }
}

/// The connection is released before the machine reports the end: once a
/// terminal state is reached with the connection open, the machine asks for
/// its close, and reports the outcome on the turn after.
pub proof fn lemma_release_then_done(client: ClientView, event: EventView)
    requires
        is_terminal(client.phase),
        client.link is Open,
    ensures
        issue(client).1 is Close,
        client_step(client, event).0.link is Released,
        client_step(client, event).1 == ActionView::Done(outcome_of(client.phase)),
{
}

/// The machine reports the end only with its connection unopened or
/// released.
pub proof fn lemma_done_means_released(client: ClientView, event: EventView)
    requires
        client_step(client, event).1 is Done,
    ensures
        !(client_step(client, event).0.link is Open),
        is_terminal(client_step(client, event).0.phase),
{
}

/// One connection serves one obligation: no turn asks for a connection to be
/// opened. Only the start of the machine does.
pub proof fn lemma_no_second_connection(client: ClientView, event: EventView)
    ensures
        !(client_step(client, event).1 is Open),
{
}

/// A claim response that reports failure ends the handshake in whatever state
/// it arrives: the turn that takes it in and every turn after it ask only for
/// the release of the connection or the end, so no acknowledgment is sent,
/// and the obligation is not settled unless it was before.
pub proof fn lemma_rejected_claim_is_final(
    client: ClientView,
    rejection: EventView,
    later: Seq<EventView>,
)
    requires
        claim_rejected(rejection),
    ensures
        winds_down(client_step(client, rejection).1),
        is_terminal(client_step(client, rejection).0.phase),
        client.phase is AwaitingClaimAck ==> client_step(client, rejection).0.phase
            == Phase::Failed(Failure::ClaimRejected),
        !(client.phase is Settled) ==> client_run(
            client_step(client, rejection).0,
            later,
        ).phase is Failed,
        forall|k: int|
            0 <= k < later.len() ==> winds_down(
                #[trigger] client_action(client_step(client, rejection).0, later, k),
            ),
{
    lemma_terminal_absorbs(client_step(client, rejection).0, later);
}

/// Where a fresh machine rests after any sequence of events: while the events
/// are those of a handshake that goes well, in the state that the script
/// gives; after the first event that is not, in a failed state.
pub proof fn lemma_run_follows_script(
    endpoint: Seq<char>,
    timeout_ms: nat,
    request: ClaimRequestView,
    events: Seq<EventView>,
)
    ensures
        on_script(events, 5) ==> client_run(
            initial_client(endpoint, timeout_ms, request),
            events,
        ).phase == resting_phase(events.len() as int),
        !on_script(events, 5) ==> client_run(
            initial_client(endpoint, timeout_ms, request),
            events,
        ).phase is Failed,
    decreases events.len(),
{
    let start = initial_client(endpoint, timeout_ms, request);
    if events.len() > 0 {
        let before = events.drop_last();
        let n = before.len() as int;
        lemma_run_follows_script(endpoint, timeout_ms, request, before);
        assert forall|k: int| 0 <= k < n implies before[k] == events[k] by {}
        if on_script(before, 5) {
            assert(events[n] == events.last());
            if n < 5 {
                if script_event(n, events.last()) {
                    assert(on_script(events, 5)) by {
                        assert forall|k: int| 0 <= k < 5 && k < events.len() implies script_event(
                            k,
                            #[trigger] events[k],
                        ) by {
                            if k < n {
                                assert(script_event(k, before[k]));
                            }
                        }
                    }
                } else {
                    assert(!on_script(events, 5));
                }
            } else {
                assert(on_script(events, 5)) by {
                    assert forall|k: int| 0 <= k < 5 && k < events.len() implies script_event(
                        k,
                        #[trigger] events[k],
                    ) by {
                        assert(script_event(k, before[k]));
                    }
                }
            }
        } else {
            let k = choose|k: int| 0 <= k < 5 && k < before.len() && !script_event(k, before[k]);
            assert(!script_event(k, events[k]));
        }
    }
}

/// An obligation is settled only through two successful responses in a row:
/// a fresh machine is in its settled state exactly when the events began with
/// the connection opening, the claim being sent and accepted, and the
/// acknowledgment being sent and accepted.
pub proof fn lemma_settled_iff_script(
    endpoint: Seq<char>,
    timeout_ms: nat,
    request: ClaimRequestView,
    events: Seq<EventView>,
)
    ensures
        client_run(initial_client(endpoint, timeout_ms, request), events).phase is Settled
            <==> settling_script(events),
{
    lemma_run_follows_script(endpoint, timeout_ms, request, events);
    if settling_script(events) {
        assert(on_script(events, 5));
    } else if events.len() >= 5 {
        if on_script(events, 5) {
            assert(script_event(0, events[0]));
            assert(script_event(1, events[1]));
            assert(script_event(2, events[2]));
            assert(script_event(3, events[3]));
            assert(script_event(4, events[4]));
        }
    }
}

/// The acknowledgment carries the identifier that the claim response gave:
/// a machine that awaits the response to its claim answers a response that
/// reports success by sending an acknowledgment with that response's
/// identifier, and nothing else.
pub proof fn lemma_ack_carries_captured_id(client: ClientView, event: EventView)
    requires
        client.phase is AwaitingClaimAck,
        claim_accepted(event),
    ensures
        client_step(client, event).0.phase is ClaimAcknowledged,
        client_step(client, event).0.ack_id == event->Received_0->Claim_0.ack_id,
        client_step(client, event).1 == (ActionView::Send {
            message: OutgoingView::Ack { ack_id: event->Received_0->Claim_0.ack_id },
            timeout_ms: client.timeout_ms,
        }),
{
}

/// The claim that is sent is the claim that the machine was made for, and it
/// is sent once the connection is open and not before.
pub proof fn lemma_claim_follows_open(client: ClientView, event: EventView)
    requires
        client_step(client, event).1 matches ActionView::Send { message, .. } && message
            is Claim,
    ensures
        client.phase is Disconnected,
        event is Opened,
        client_step(client, event).0.link is Open,
        client_step(client, event).1 == (ActionView::Send {
            message: OutgoingView::Claim(client.request),
            timeout_ms: client.timeout_ms,
        }),
{
}

} // verus!
