//! What holds of every clearance run.

use vstd::prelude::*;
use crate::config::ConfigView;
use crate::ledger::{key_of, LedgerRowView};
use crate::orchestrator::{
    rows_relations, run_step, run_wf, summary_of, threshold_end, total_of, transport_event,
    RunActionView, RunEnd, RunEventView, RunPhase, RunView, Settlement,
};
use crate::protocol::{
    ack_accepted, claim_accepted, claim_rejected, client_step, ActionView, EventView, Outcome,
    Phase,
};

verus! {

/// What one turn of a run is given: how the last work ended, and the expiry
/// for a claim that the turn makes.
pub struct Turn {
    pub event: RunEventView,
    pub expiry_at: int,
}

/// The run after a sequence of turns.
pub open spec fn run_after(run: RunView, turns: Seq<Turn>) -> RunView
    decreases turns.len(),
{
    if turns.len() == 0 {
        run
    } else {
        run_step(run_after(run, turns.drop_last()), turns.last().event, turns.last().expiry_at).0
    }
}

/// The action with which the run answers turn `k` of `turns`.
pub open spec fn run_action(run: RunView, turns: Seq<Turn>, k: int) -> RunActionView
    recommends
        0 <= k < turns.len(),
{
    run_step(run_after(run, turns.take(k)), turns[k].event, turns[k].expiry_at).1
}

/// The action touches the world: it opens, uses or closes a connection, or
/// writes to the ledger.
pub open spec fn has_side_effect(action: RunActionView) -> bool {
    action is Transport || action is MarkClaimed
}

/// The action sends a message to the counterparty.
pub open spec fn sends(action: RunActionView) -> bool {
    action matches RunActionView::Transport(inner) && inner is Send
}

/// A turn keeps a run within the states that a run can be in.
pub proof fn lemma_step_keeps_wf(run: RunView, event: RunEventView, expiry_at: int)
    requires
        run_wf(run),
    ensures
        run_wf(run_step(run, event, expiry_at).0),
{
}

/// A run that is over stays as it is and only repeats its report.
pub proof fn lemma_finished_absorbs(run: RunView, turns: Seq<Turn>)
    requires
        run.phase is Finished,
    ensures
        run_after(run, turns) == run,
        forall|k: int|
            0 <= k < turns.len() ==> #[trigger] run_action(run, turns, k) == RunActionView::Finish(
                summary_of(run, run.phase->Finished_0),
            ),
    decreases turns.len(),
{
    if turns.len() > 0 {
        lemma_finished_absorbs(run, turns.drop_last());
        assert forall|k: int| 0 <= k < turns.len() implies #[trigger] run_action(run, turns, k)
            == RunActionView::Finish(summary_of(run, run.phase->Finished_0)) by {
            lemma_finished_absorbs(run, turns.take(k));
        }
    }
}

/// The floor holds for the whole run. Where the total of the fetched relations
/// lies below it, the turn that takes the fetch in ends the run, and neither
/// that turn nor any later one opens a connection or writes to the ledger.
pub proof fn lemma_below_floor_nothing_happens(
    run: RunView,
    rows: Seq<LedgerRowView>,
    expiry_at: int,
    later: Seq<Turn>,
)
    requires
        run.phase is Fetching,
        rows_relations(rows) is Some,
        total_of(rows_relations(rows)->Some_0) < run.config.min_threshold,
    ensures
        run_step(run, RunEventView::Fetched(rows), expiry_at).0.phase == RunPhase::Finished(
            RunEnd::BelowThreshold,
        ),
        run_step(run, RunEventView::Fetched(rows), expiry_at).1 is Finish,
        run_step(run, RunEventView::Fetched(rows), expiry_at).1->Finish_0.total == total_of(
            rows_relations(rows)->Some_0,
        ),
        run_step(run, RunEventView::Fetched(rows), expiry_at).1->Finish_0.settlements
            == run.settlements,
        forall|k: int|
            0 <= k < later.len() ==> !has_side_effect(
                #[trigger] run_action(
                    run_step(run, RunEventView::Fetched(rows), expiry_at).0,
                    later,
                    k,
                ),
            ),
{
    lemma_finished_absorbs(run_step(run, RunEventView::Fetched(rows), expiry_at).0, later);
}

/// The thresholds admit a total exactly when it lies within the thresholds: at or
/// above the floor, and at or below the ceiling where there is one.
pub proof fn lemma_thresholds_are_inclusive(config: ConfigView, total: nat)
    requires
        total <= u128::MAX,
    ensures
        threshold_end(config, total) is None <==> config.min_threshold <= total && (
        config.max_threshold matches Some(ceiling) ==> total <= ceiling),
{
}

/// A run that fails to fetch does nothing else.
pub proof fn lemma_failed_fetch_ends_run(run: RunView, expiry_at: int, later: Seq<Turn>)
    requires
        run.phase is Fetching,
    ensures
        run_step(run, RunEventView::FetchFailed, expiry_at).0.phase == RunPhase::Finished(
            RunEnd::LedgerQueryFailed,
        ),
        run_step(run, RunEventView::FetchFailed, expiry_at).1 is Finish,
        forall|k: int|
            0 <= k < later.len() ==> !has_side_effect(
                #[trigger] run_action(
                    run_step(run, RunEventView::FetchFailed, expiry_at).0,
                    later,
                    k,
                ),
            ),
{
    lemma_finished_absorbs(run_step(run, RunEventView::FetchFailed, expiry_at).0, later);
}

/// The ledger is written to only for a settled handshake: a turn asks for a
/// conditional update only where the handshake under way has just ended
/// settled, with its connection released, and then for the relation under
/// the cursor and no other.
pub proof fn lemma_update_only_when_settled(run: RunView, event: RunEventView, expiry_at: int)
    requires
        run_step(run, event, expiry_at).1 is MarkClaimed,
    ensures
        run.phase is Settling,
        client_step(run.client->Some_0, transport_event(event)).1 == ActionView::Done(
            Outcome::Settled,
        ),
        client_step(run.client->Some_0, transport_event(event)).0.phase is Settled,
        run_step(run, event, expiry_at).1->MarkClaimed_0 == key_of(
            run.obligations[run.cursor as int],
        ),
        run_step(run, event, expiry_at).0.phase is Updating,
        run_step(run, event, expiry_at).0.cursor == run.cursor,
{
}

/// A failed handshake leaves the ledger alone: where the handshake under
/// way ends failed, the turn records the failure, moves the cursor on and
/// asks for no update.
pub proof fn lemma_failed_handshake_moves_on(run: RunView, event: EventView, expiry_at: int)
    requires
        run.phase is Settling,
        client_step(run.client->Some_0, event).1 matches ActionView::Done(Outcome::Failed(_)),
    ensures
        !(run_step(run, RunEventView::Transport(event), expiry_at).1 is MarkClaimed),
        !sends(run_step(run, RunEventView::Transport(event), expiry_at).1),
        run_step(run, RunEventView::Transport(event), expiry_at).0.cursor == run.cursor + 1,
        run_step(run, RunEventView::Transport(event), expiry_at).0.obligations
            == run.obligations,
{
}

/// What holds of a run once the claim for obligation `index` has been
/// rejected: the run is past the fetch, and either past that obligation or
/// winding down its failed handshake.
pub open spec fn rejected_at(run: RunView, index: nat) -> bool {
    &&& !(run.phase is Fetching)
    &&& run.cursor >= index
    &&& run.cursor == index ==> {
        &&& run.phase is Settling
        &&& run.client is Some
        &&& run.client->Some_0.phase is Failed
    }
}

/// A turn of a run for which `rejected_at` holds keeps it so, and neither
/// sends anything nor asks for an update while the cursor is on that
/// obligation.
proof fn lemma_rejected_step(run: RunView, index: nat, turn: Turn)
    requires
        rejected_at(run, index),
    ensures
        rejected_at(run_step(run, turn.event, turn.expiry_at).0, index),
        run_step(run, turn.event, turn.expiry_at).1 is MarkClaimed || sends(
            run_step(run, turn.event, turn.expiry_at).1,
        ) ==> run_step(run, turn.event, turn.expiry_at).0.cursor > index,
{
}

/// `rejected_at` holds after any number of turns.
proof fn lemma_rejected_forever(run: RunView, index: nat, turns: Seq<Turn>)
    requires
        rejected_at(run, index),
    ensures
        rejected_at(run_after(run, turns), index),
    decreases turns.len(),
{
    if turns.len() > 0 {
        lemma_rejected_forever(run, index, turns.drop_last());
        lemma_rejected_step(run_after(run, turns.drop_last()), index, turns.last());
    }
}

/// A claim response that reports failure is never followed by an
/// acknowledgment or by a ledger update for that obligation.
///
/// Let the response arrive while the handshake for the obligation under the
/// cursor has not settled. Then the turn that takes it in sends nothing and
/// asks for no update, and whatever happens afterwards, each later turn that
/// sends a message or asks for an update does so with the cursor on a later
/// obligation.
pub proof fn lemma_rejected_claim_blocks_update(
    run: RunView,
    rejection: EventView,
    expiry_at: int,
    later: Seq<Turn>,
)
    requires
        run.phase is Settling,
        run.client is Some,
        !(run.client->Some_0.phase is Settled),
        claim_rejected(rejection),
    ensures
        !(run_step(run, RunEventView::Transport(rejection), expiry_at).1 is MarkClaimed),
        !sends(run_step(run, RunEventView::Transport(rejection), expiry_at).1),
        forall|k: int|
            0 <= k < later.len() && (#[trigger] run_action(
                run_step(run, RunEventView::Transport(rejection), expiry_at).0,
                later,
                k,
            ) is MarkClaimed || sends(
                run_action(
                    run_step(run, RunEventView::Transport(rejection), expiry_at).0,
                    later,
                    k,
                ),
            )) ==> run_after(
                run_step(run, RunEventView::Transport(rejection), expiry_at).0,
                later.take(k + 1),
            ).cursor > run.cursor,
{
    let next = run_step(run, RunEventView::Transport(rejection), expiry_at).0;
    assert(rejected_at(next, run.cursor));
    assert forall|k: int|
        0 <= k < later.len() && (#[trigger] run_action(next, later, k) is MarkClaimed || sends(
            run_action(next, later, k),
        )) implies run_after(next, later.take(k + 1)).cursor > run.cursor by {
        lemma_rejected_forever(next, run.cursor, later.take(k));
        lemma_rejected_step(run_after(next, later.take(k)), run.cursor, later[k]);
        assert(later.take(k + 1).drop_last() =~= later.take(k));
        assert(later.take(k + 1).last() == later[k]);
    }
}

/// A run that ends completed reports on every obligation it fetched.
pub proof fn lemma_completed_reports_all(run: RunView, event: RunEventView, expiry_at: int)
    requires
        run_wf(run),
        !(run.phase is Finished),
        run_step(run, event, expiry_at).0.phase == RunPhase::Finished(RunEnd::Completed),
    ensures
        run_step(run, event, expiry_at).1 is Finish,
        run_step(run, event, expiry_at).1->Finish_0.end == RunEnd::Completed,
        run_step(run, event, expiry_at).1->Finish_0.settlements.len() == run_step(
            run,
            event,
            expiry_at,
        ).0.obligations.len(),
{
}

/// Obligations are settled one at a time and in the order of the fetch: a
/// turn leaves the cursor where it is or moves it on by one, and never
/// changes the obligations once they are fetched.
pub proof fn lemma_cursor_moves_forward(run: RunView, event: RunEventView, expiry_at: int)
    requires
        !(run.phase is Fetching),
    ensures
        run_step(run, event, expiry_at).0.obligations == run.obligations,
        run_step(run, event, expiry_at).0.cursor == run.cursor || run_step(
            run,
            event,
            expiry_at,
        ).0.cursor == run.cursor + 1,
        !(run_step(run, event, expiry_at).0.phase is Fetching),
{
}

/// Each obligation gets a connection of its own, and no two are open at
/// once: a turn asks for a connection to be opened only as it turns to a new
/// obligation, with a fresh handshake machine, and where a handshake was
/// under way before, that handshake has ended with its own connection
/// unopened or released.
pub proof fn lemma_open_starts_an_obligation(run: RunView, event: RunEventView, expiry_at: int)
    requires
        run_step(run, event, expiry_at).1 matches RunActionView::Transport(inner) && inner
            is Open,
    ensures
        run_step(run, event, expiry_at).0.phase is Settling,
        run_step(run, event, expiry_at).0.client is Some,
        run_step(run, event, expiry_at).0.client->Some_0.phase is Disconnected,
        run_step(run, event, expiry_at).0.client->Some_0.link is Unopened,
        run.phase is Fetching || run_step(run, event, expiry_at).0.cursor == run.cursor + 1,
        run.phase is Settling ==> {
            &&& client_step(run.client->Some_0, transport_event(event)).1 is Done
            &&& !(client_step(run.client->Some_0, transport_event(event)).0.link is Open)
        },
{
}

/// The end of a handshake stays inside the run: a turn never passes the
/// handshake machine's report of its end on as transport work.
pub proof fn lemma_run_keeps_handshake_end(run: RunView, event: RunEventView, expiry_at: int)
    ensures
        run_step(run, event, expiry_at).1 matches RunActionView::Transport(inner) ==> !(inner
            is Done),
{
}

/// An obligation is on record as settled only once its ledger update has
/// been asked for and answered: a turn records a settled obligation only in
/// answer to the update, as recorded where the ledger reports the update
/// done and as unrecorded otherwise.
pub proof fn lemma_settled_is_recorded_after_update(
    run: RunView,
    event: RunEventView,
    expiry_at: int,
)
    requires
        run_wf(run),
        !(run.phase is Fetching),
        run_step(run, event, expiry_at).0.settlements.len() > run.settlements.len(),
        !(run_step(run, event, expiry_at).0.settlements.last() is Failed),
    ensures
        run.phase is Updating,
        run_step(run, event, expiry_at).0.settlements == run.settlements.push(
            if event is LedgerUpdated {
                Settlement::Settled
            } else {
                Settlement::SettledUnrecorded
            },
        ),
{
}

/// The run is settling the obligation that `base` had turned to, and its
/// handshake machine stands in `phase` with an open connection.
pub open spec fn midway(run: RunView, base: RunView, phase: Phase) -> bool {
    &&& run_wf(run)
    &&& run.phase is Settling
    &&& run.client->Some_0.phase == phase
    &&& run.client->Some_0.link is Open
    &&& run.cursor == base.cursor
    &&& run.settlements == base.settlements
    &&& run.obligations == base.obligations
}

/// The first turn of a handshake that goes well: the connection opens and
/// the claim is sent.
proof fn lemma_good_open(run: RunView, expiry_at: int)
    requires
        run_wf(run),
        run.phase is Settling,
        run.client->Some_0.phase is Disconnected,
        run.client->Some_0.link is Unopened,
    ensures
        midway(
            run_step(run, RunEventView::Transport(EventView::Opened), expiry_at).0,
            run,
            Phase::Connected,
        ),
        sends(run_step(run, RunEventView::Transport(EventView::Opened), expiry_at).1),
{
}

/// The turns of a handshake that goes well between the opening of the
/// connection and its close.
proof fn lemma_good_exchange(
    run: RunView,
    base: RunView,
    claim_response: EventView,
    ack_response: EventView,
    expiry_at: int,
)
    requires
        claim_accepted(claim_response),
        ack_accepted(ack_response),
    ensures
        midway(run, base, Phase::Connected) ==> midway(
            run_step(run, RunEventView::Transport(EventView::Sent), expiry_at).0,
            base,
            Phase::AwaitingClaimAck,
        ),
        midway(run, base, Phase::AwaitingClaimAck) ==> midway(
            run_step(run, RunEventView::Transport(claim_response), expiry_at).0,
            base,
            Phase::ClaimAcknowledged,
        ) && sends(run_step(run, RunEventView::Transport(claim_response), expiry_at).1),
        midway(run, base, Phase::ClaimAcknowledged) ==> midway(
            run_step(run, RunEventView::Transport(EventView::Sent), expiry_at).0,
            base,
            Phase::AwaitingAckConfirmation,
        ),
        midway(run, base, Phase::AwaitingAckConfirmation) ==> midway(
            run_step(run, RunEventView::Transport(ack_response), expiry_at).0,
            base,
            Phase::Settled,
        ) && run_step(run, RunEventView::Transport(ack_response), expiry_at).1
            == RunActionView::Transport(ActionView::Close),
{
}

/// The last turns of a handshake that goes well: the connection closes, the
/// update is asked for, and its success puts the obligation on record.
proof fn lemma_good_close(run: RunView, base: RunView, expiry_at: int)
    requires
        midway(run, base, Phase::Settled),
    ensures
        ({
            let (updating, mark) = run_step(
                run,
                RunEventView::Transport(EventView::Closed),
                expiry_at,
            );
            let (next, _) = run_step(updating, RunEventView::LedgerUpdated, expiry_at);
            &&& mark == RunActionView::MarkClaimed(key_of(base.obligations[base.cursor as int]))
            &&& next.cursor == base.cursor + 1
            &&& next.settlements == base.settlements.push(Settlement::Settled)
            &&& next.obligations == base.obligations
            &&& run_wf(next)
        }),
{
}

/// A handshake that goes well settles its obligation.
///
/// Let the run have just turned to an obligation. Where the connection
/// opens, the claim is sent and accepted, the acknowledgment is sent and
/// accepted and the connection closes, the run asks for the conditional
/// update of that obligation's relation; and once the ledger reports the
/// update done, the obligation is on record as settled and the run has moved
/// on to the next.
pub proof fn lemma_good_handshake_settles(
    run: RunView,
    claim_response: EventView,
    ack_response: EventView,
    expiry_at: int,
)
    requires
        run_wf(run),
        run.phase is Settling,
        run.client->Some_0.phase is Disconnected,
        run.client->Some_0.link is Unopened,
        claim_accepted(claim_response),
        ack_accepted(ack_response),
    ensures
        ({
            let (r1, claim) = run_step(
                run,
                RunEventView::Transport(EventView::Opened),
                expiry_at,
            );
            let (r2, _) = run_step(r1, RunEventView::Transport(EventView::Sent), expiry_at);
            let (r3, ack) = run_step(r2, RunEventView::Transport(claim_response), expiry_at);
            let (r4, _) = run_step(r3, RunEventView::Transport(EventView::Sent), expiry_at);
            let (r5, close) = run_step(r4, RunEventView::Transport(ack_response), expiry_at);
            let (r6, mark) = run_step(r5, RunEventView::Transport(EventView::Closed), expiry_at);
            let (r7, _) = run_step(r6, RunEventView::LedgerUpdated, expiry_at);
            &&& sends(claim)
            &&& sends(ack)
            &&& close == RunActionView::Transport(ActionView::Close)
            &&& mark == RunActionView::MarkClaimed(key_of(run.obligations[run.cursor as int]))
            &&& r7.cursor == run.cursor + 1
            &&& r7.settlements == run.settlements.push(Settlement::Settled)
            &&& r7.obligations == run.obligations
            &&& run_wf(r7)
        }),
{
    let r1 = run_step(run, RunEventView::Transport(EventView::Opened), expiry_at).0;
    let r2 = run_step(r1, RunEventView::Transport(EventView::Sent), expiry_at).0;
    let r3 = run_step(r2, RunEventView::Transport(claim_response), expiry_at).0;
    let r4 = run_step(r3, RunEventView::Transport(EventView::Sent), expiry_at).0;
    let r5 = run_step(r4, RunEventView::Transport(ack_response), expiry_at).0;
    lemma_good_open(run, expiry_at);
    lemma_good_exchange(r1, run, claim_response, ack_response, expiry_at);
    lemma_good_exchange(r2, run, claim_response, ack_response, expiry_at);
    lemma_good_exchange(r3, run, claim_response, ack_response, expiry_at);
    lemma_good_exchange(r4, run, claim_response, ack_response, expiry_at);
    lemma_good_close(r5, run, expiry_at);
}

} // verus!
