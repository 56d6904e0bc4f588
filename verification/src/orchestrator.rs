//! One clearance run as a state machine.
//!
//! The run fetches the pending relations, holds their total against the
//! configured thresholds, and settles them one after another, each through a
//! handshake of its own. Like the handshake machine it does no outside work:
//! it names that work as a [`RunAction`] and takes its result as a
//! [`RunEvent`].

use vstd::prelude::*;
use crate::clock::{expiry_from, millis_days_from_now};
use crate::config::{ClearanceConfig, ConfigView};
use crate::ledger::{
    key_of, relation_from_row, relation_of, relations_view, LedgerRow, LedgerRowView, Relation,
    RelationView, UpdateKey,
};
use crate::message::{ClaimRequest, ClaimRequestView};
use crate::protocol::{
    client_step, initial_client, issue, Action, ActionView, ClientView, Event, EventView, Failure,
    Fault, Outcome, SettlementProtocolClient,
};
use crate::transaction::{Transaction, TransactionView};

verus! {

/// How a run ended.
#[derive(Clone, Copy, Debug, PartialEq, Eq, Structural)]
pub enum RunEnd {
    /// The pending relations could not be fetched, or a row was no relation.
    LedgerQueryFailed,
    /// The run-wide total does not fit 128 bits.
    TotalOverflow,
    /// The run-wide total lies below the floor: nothing was attempted.
    BelowThreshold,
    /// The run-wide total lies above the ceiling: nothing was attempted.
    AboveCeiling,
    /// Every obligation was attempted.
    Completed,
}

/// Where a run stands.
#[derive(Clone, Copy, Debug, PartialEq, Eq, Structural)]
pub enum RunPhase {
    /// The pending relations have been asked for.
    Fetching,
    /// The handshake for the obligation under the cursor is under way.
    Settling,
    /// The ledger update for the obligation under the cursor has been asked
    /// for.
    Updating,
    /// The run is over.
    Finished(RunEnd),
}

/// What became of one obligation.
#[derive(Clone, Copy, Debug, PartialEq, Eq, Structural)]
pub enum Settlement {
    /// The handshake settled it and the ledger recorded that.
    Settled,
    /// The handshake settled it, but the ledger update failed: it stays
    /// pending in the ledger until a later run.
    SettledUnrecorded,
    /// The handshake failed: it stays pending.
    Failed(Failure),
}

/// Mathematical content of a [`RunSummary`].
pub struct RunSummaryView {
    pub end: RunEnd,
    pub total: nat,
    pub settlements: Seq<Settlement>,
}

/// The report of a run: how it ended, the run-wide total where it was
/// computed (else zero), and what became of each obligation attempted, in
/// the order of the fetch.
#[derive(Debug, PartialEq, Eq)]
pub struct RunSummary {
    pub end: RunEnd,
    pub total: u128,
    pub settlements: Vec<Settlement>,
}

impl View for RunSummary {
    type V = RunSummaryView;

    open spec fn view(&self) -> RunSummaryView {
        RunSummaryView { end: self.end, total: self.total as nat, settlements: self.settlements@ }
    }
}

/// The rows of a sequence, each by its view.
pub open spec fn rows_view(rows: Seq<LedgerRow>) -> Seq<LedgerRowView> {
    Seq::new(rows.len(), |i: int| rows[i]@)
}

/// Mathematical content of a [`RunEvent`].
pub enum RunEventView {
    Fetched(Seq<LedgerRowView>),
    FetchFailed,
    Transport(EventView),
    LedgerUpdated,
    LedgerUpdateFailed,
}

/// How the outside work named by the last [`RunAction`] ended.
#[derive(Debug, PartialEq, Eq)]
pub enum RunEvent {
    /// The ledger returned these pending relations.
    Fetched(Vec<LedgerRow>),
    /// The ledger could not be queried.
    FetchFailed,
    /// The transport work ended so.
    Transport(Event),
    /// The conditional update went through, whether or not a relation
    /// matched.
    LedgerUpdated,
    /// The conditional update could not be carried out.
    LedgerUpdateFailed,
}

impl View for RunEvent {
    type V = RunEventView;

    open spec fn view(&self) -> RunEventView {
        match self {
            RunEvent::Fetched(rows) => RunEventView::Fetched(rows_view(rows@)),
            RunEvent::FetchFailed => RunEventView::FetchFailed,
            RunEvent::Transport(event) => RunEventView::Transport(event@),
            RunEvent::LedgerUpdated => RunEventView::LedgerUpdated,
            RunEvent::LedgerUpdateFailed => RunEventView::LedgerUpdateFailed,
        }
    }
}

/// Mathematical content of a [`RunAction`].
pub enum RunActionView {
    FetchPending,
    Transport(ActionView),
    MarkClaimed(UpdateKey),
    Finish(RunSummaryView),
}

/// The outside work that the run asks for next.
#[derive(Debug, PartialEq, Eq)]
pub enum RunAction {
    /// Fetch the pending relations from the ledger.
    FetchPending,
    /// Do this piece of transport work.
    Transport(Action),
    /// Carry out the conditional update for the relation with these values.
    MarkClaimed { from_bank: String, to_bank: String, amount: u128, issued_at: i64 },
    /// Nothing is left to do.
    Finish(RunSummary),
}

impl View for RunAction {
    type V = RunActionView;

    open spec fn view(&self) -> RunActionView {
        match self {
            RunAction::FetchPending => RunActionView::FetchPending,
            RunAction::Transport(action) => RunActionView::Transport(action@),
            RunAction::MarkClaimed { from_bank, to_bank, amount, issued_at } => {
                RunActionView::MarkClaimed(
                    UpdateKey {
                        from_bank: from_bank@,
                        to_bank: to_bank@,
                        amount: *amount as nat,
                        issued_at: *issued_at as int,
                    },
                )
            },
            RunAction::Finish(summary) => RunActionView::Finish(summary@),
        }
    }
}

/// Mathematical content of a [`ClearanceOrchestrator`].
pub struct RunView {
    pub config: ConfigView,
    pub phase: RunPhase,
    pub obligations: Seq<RelationView>,
    pub cursor: nat,
    pub client: Option<ClientView>,
    pub settlements: Seq<Settlement>,
    pub total: nat,
}

/// Drives one clearance run.
#[derive(Debug, PartialEq, Eq)]
pub struct ClearanceOrchestrator {
    pub config: ClearanceConfig,
    pub phase: RunPhase,
    pub obligations: Vec<Relation>,
    pub cursor: usize,
    pub client: Option<SettlementProtocolClient>,
    pub settlements: Vec<Settlement>,
    pub total: u128,
}

impl View for ClearanceOrchestrator {
    type V = RunView;

    open spec fn view(&self) -> RunView {
        RunView {
            config: self.config@,
            phase: self.phase,
            obligations: relations_view(self.obligations@),
            cursor: self.cursor as nat,
            client: match self.client {
                Some(client) => Some(client@),
                None => None,
            },
            settlements: self.settlements@,
            total: self.total as nat,
        }
    }
}

/// The relations that a fetch result stands for, where every row is one.
pub open spec fn rows_relations(rows: Seq<LedgerRowView>) -> Option<Seq<RelationView>> {
    if forall|i: int| 0 <= i < rows.len() ==> relation_of(#[trigger] rows[i]) is Ok {
        Some(Seq::new(rows.len(), |i: int| relation_of(rows[i])->Ok_0))
    } else {
        None
    }
}

/// The run-wide total: the sum of the amounts of all relations.
pub open spec fn total_of(relations: Seq<RelationView>) -> nat
    decreases relations.len(),
{
    if relations.len() == 0 {
        0
    } else {
        total_of(relations.drop_last()) + relations.last().amount
    }
}

/// Why a run with this total attempts nothing, if it does not.
///
/// The floor is inclusive: a total that equals it passes. So is the ceiling,
/// and without a ceiling there is no upper bound other than 128 bits.
pub open spec fn threshold_end(config: ConfigView, total: nat) -> Option<RunEnd> {
    if total < config.min_threshold {
        Some(RunEnd::BelowThreshold)
    } else if total > u128::MAX {
        Some(RunEnd::TotalOverflow)
    } else if config.max_threshold matches Some(ceiling) && total > ceiling {
        Some(RunEnd::AboveCeiling)
    } else {
        None
    }
}

/// The single link that stands as evidence for a relation: a transfer of the
/// relation's amount from the creditor to the debtor, not yet hashed or
/// signed, valid until `expiry_at`.
pub open spec fn evidence_link(relation: RelationView, expiry_at: int) -> TransactionView {
    TransactionView {
        previous_tx_hash: None,
        amount: relation.amount,
        from_did: relation.to_bank,
        to_did: relation.from_bank,
        issued_at: relation.issued_at,
        expiry_at,
        tx_hash: Seq::empty(),
        signed_tx_hash: Seq::empty(),
    }
}

/// The claim that settles a relation: raised by the creditor against the
/// debtor, for the relation's amount, with the relation as its one chain of
/// one link, flagged as a clearance.
pub open spec fn claim_for(relation: RelationView, expiry_at: int) -> ClaimRequestView {
    ClaimRequestView {
        did: relation.to_bank,
        bank_did: relation.from_bank,
        amount: relation.amount,
        chained_transactions: seq![seq![evidence_link(relation, expiry_at)]],
        clearance: Some(true),
    }
}

/// The report of a run in the given state.
pub open spec fn summary_of(run: RunView, end: RunEnd) -> RunSummaryView {
    RunSummaryView { end, total: run.total, settlements: run.settlements }
}

/// The run brought to its end.
pub open spec fn finish(run: RunView, end: RunEnd) -> (RunView, RunActionView) {
    (
        RunView { phase: RunPhase::Finished(end), client: None, ..run },
        RunActionView::Finish(summary_of(run, end)),
    )
}

/// The run turned to the obligation under its cursor: a fresh handshake
/// machine for it and that machine's first action, or the end of the run
/// where no obligation is left.
pub open spec fn begin_next(run: RunView, expiry_at: int) -> (RunView, RunActionView) {
    if run.cursor < run.obligations.len() {
        let fresh = initial_client(
            run.config.endpoint,
            run.config.timeout_ms,
            claim_for(run.obligations[run.cursor as int], expiry_at),
        );
        let (client, action) = issue(fresh);
        (
            RunView { phase: RunPhase::Settling, client: Some(client), ..run },
            RunActionView::Transport(action),
        )
    } else {
        finish(run, RunEnd::Completed)
    }
}

/// The run once the obligation under its cursor is done with.
pub open spec fn advance(run: RunView, settlement: Settlement, expiry_at: int) -> (
    RunView,
    RunActionView,
) {
    begin_next(
        RunView {
            cursor: run.cursor + 1,
            settlements: run.settlements.push(settlement),
            client: None,
            ..run
        },
        expiry_at,
    )
}

/// What a fetch result leads to: the end of the run where a row is no
/// relation or the thresholds do not admit the total, else the first handshake.
pub open spec fn after_fetch(run: RunView, rows: Seq<LedgerRowView>, expiry_at: int) -> (
    RunView,
    RunActionView,
) {
    match rows_relations(rows) {
        None => finish(run, RunEnd::LedgerQueryFailed),
        Some(relations) => match threshold_end(run.config, total_of(relations)) {
            Some(RunEnd::TotalOverflow) => finish(run, RunEnd::TotalOverflow),
            Some(end) => finish(RunView { total: total_of(relations), ..run }, end),
            None => begin_next(
                RunView {
                    obligations: relations,
                    cursor: 0,
                    settlements: Seq::empty(),
                    total: total_of(relations),
                    ..run
                },
                expiry_at,
            ),
        },
    }
}

/// The transport event that an event of the run amounts to for the
/// handshake under way: itself, or a protocol fault where it is none.
pub open spec fn transport_event(event: RunEventView) -> EventView {
    match event {
        RunEventView::Transport(inner) => inner,
        _ => EventView::Failed(Fault::Protocol),
    }
}

/// What an event leads to while a handshake is under way: the handshake
/// machine takes its turn; where it ends settled the ledger update is asked
/// for, where it ends failed the run moves on, and otherwise the machine's
/// action is passed on.
pub open spec fn after_transport(run: RunView, event: EventView, expiry_at: int) -> (
    RunView,
    RunActionView,
) {
    let (client, action) = client_step(run.client->Some_0, event);
    match action {
        ActionView::Done(Outcome::Settled) => (
            RunView { phase: RunPhase::Updating, client: None, ..run },
            RunActionView::MarkClaimed(key_of(run.obligations[run.cursor as int])),
        ),
        ActionView::Done(Outcome::Failed(failure)) => advance(
            run,
            Settlement::Failed(failure),
            expiry_at,
        ),
        _ => (RunView { client: Some(client), ..run }, RunActionView::Transport(action)),
    }
}

/// One turn of the run: take in `event`, then name the next work.
/// `expiry_at` is the expiry given to a claim that this turn makes.
pub open spec fn run_step(run: RunView, event: RunEventView, expiry_at: int) -> (
    RunView,
    RunActionView,
) {
    match run.phase {
        RunPhase::Fetching => match event {
            RunEventView::Fetched(rows) => after_fetch(run, rows, expiry_at),
            _ => finish(run, RunEnd::LedgerQueryFailed),
        },
        RunPhase::Settling => after_transport(run, transport_event(event), expiry_at),
        RunPhase::Updating => advance(
            run,
            if event is LedgerUpdated {
                Settlement::Settled
            } else {
                Settlement::SettledUnrecorded
            },
            expiry_at,
        ),
        RunPhase::Finished(end) => (run, RunActionView::Finish(summary_of(run, end))),
    }
}

/// A run that has asked for the pending relations and done nothing else.
pub open spec fn initial_run(config: ConfigView) -> RunView {
    RunView {
        config,
        phase: RunPhase::Fetching,
        obligations: Seq::empty(),
        cursor: 0,
        client: None,
        settlements: Seq::empty(),
        total: 0,
    }
}

/// The states that a run can be in: the cursor stays within the obligations,
/// one settlement is on record for each obligation behind it, and a
/// handshake machine is there exactly while a handshake is under way.
pub open spec fn run_wf(run: RunView) -> bool {
    &&& run.cursor <= run.obligations.len()
    &&& run.settlements.len() == run.cursor
    &&& (run.phase is Settling || run.phase is Updating ==> run.cursor < run.obligations.len())
    &&& (run.phase is Settling <==> run.client is Some)
}

/// Copies a list of settlements.
fn copy_settlements(settlements: &Vec<Settlement>) -> (res: Vec<Settlement>)
    ensures
        res@ == settlements@,
{
    let mut res: Vec<Settlement> = Vec::new();
    let mut i: usize = 0;
    while i < settlements.len()
        invariant
            i <= settlements.len(),
            res@ == settlements@.take(i as int),
        decreases settlements.len() - i,
    {
        res.push(settlements[i]);
        assert(res@ =~= settlements@.take(i + 1));
        i += 1;
    }
    assert(settlements@.take(settlements.len() as int) =~= settlements@);
    res
}

/// Builds the claim that settles `relation`.
pub fn claim_for_relation(relation: &Relation, expiry_at: i64) -> (claim: ClaimRequest)
    ensures
        claim@ == claim_for(relation@, expiry_at as int),
{
    let link = Transaction {
        previous_tx_hash: None,
        amount: relation.amount,
        from_did: relation.to_bank.clone(),
        to_did: relation.from_bank.clone(),
        issued_at: relation.issued_at,
        expiry_at,
        tx_hash: String::new(),
        signed_tx_hash: String::new(),
    };
    assert(link@ == evidence_link(relation@, expiry_at as int));
    let mut chain: Vec<Transaction> = Vec::new();
    chain.push(link);
    let mut chains: Vec<Vec<Transaction>> = Vec::new();
    chains.push(chain);
    let claim = ClaimRequest {
        did: relation.to_bank.clone(),
        bank_did: relation.from_bank.clone(),
        amount: relation.amount,
        chained_transactions: chains,
        clearance: Some(true),
    };
    proof {
        let wanted = claim_for(relation@, expiry_at as int).chained_transactions;
        let got = claim@.chained_transactions;
        assert(got.len() == 1);
        assert(got[0] =~= wanted[0]);
        assert(got =~= wanted);
    }
    claim
}

/// A prefix of the relations has no greater a total than all of them.
proof fn lemma_total_of_prefix(relations: Seq<RelationView>, k: int)
    requires
        0 <= k <= relations.len(),
    ensures
        total_of(relations.take(k)) <= total_of(relations),
    decreases relations.len() - k,
{
    if k < relations.len() {
        lemma_total_of_prefix(relations, k + 1);
        assert(relations.take(k + 1).drop_last() =~= relations.take(k));
    } else {
        assert(relations.take(k) =~= relations);
    }
}

/// Reads every row into its relation, or finds that some row is none.
pub fn relations_from_rows(rows: &Vec<LedgerRow>) -> (res: Option<Vec<Relation>>)
    ensures
        match res {
            Some(relations) => rows_relations(rows_view(rows@)) == Some(
                relations_view(relations@),
            ),
            None => rows_relations(rows_view(rows@)) is None,
        },
{
    let mut relations: Vec<Relation> = Vec::new();
    let mut i: usize = 0;
    while i < rows.len()
        invariant
            i <= rows.len(),
            relations.len() == i,
            forall|j: int|
                0 <= j < i ==> relation_of(#[trigger] rows_view(rows@)[j]) == Ok::<
                    RelationView,
                    crate::ledger::RowError,
                >(relations[j]@),
        decreases rows.len() - i,
    {
        assert(rows_view(rows@)[i as int] == rows[i as int]@);
        match relation_from_row(&rows[i]) {
            Ok(relation) => {
                relations.push(relation);
            },
            Err(_) => {
                assert(!(relation_of(rows_view(rows@)[i as int]) is Ok));
                return None;
            },
        }
        i += 1;
    }
    assert(rows_relations(rows_view(rows@))->Some_0 =~= relations_view(relations@));
    Some(relations)
}

/// Adds up the amounts of the relations, or finds that the sum does not fit
/// 128 bits.
pub fn total_amount(relations: &Vec<Relation>) -> (total: Option<u128>)
    ensures
        match total {
            Some(sum) => sum == total_of(relations_view(relations@)),
            None => total_of(relations_view(relations@)) > u128::MAX,
        },
{
    let ghost all = relations_view(relations@);
    let mut sum: u128 = 0;
    let mut i: usize = 0;
    assert(all.take(0) =~= Seq::<RelationView>::empty());
    while i < relations.len()
        invariant
            i <= relations.len(),
            all == relations_view(relations@),
            sum == total_of(all.take(i as int)),
        decreases relations.len() - i,
    {
        proof {
            assert(all.take(i + 1).drop_last() =~= all.take(i as int));
            assert(all.take(i + 1).last() == relations[i as int]@);
            lemma_total_of_prefix(all, i + 1);
        }
        sum = match sum.checked_add(relations[i].amount) {
            Some(s) => s,
            None => {
                return None;
            },
        };
        i += 1;
    }
    assert(all.take(relations.len() as int) =~= all);
    Some(sum)
}

/// Holds a total against the thresholds of a configuration.
pub fn check_thresholds(config: &ClearanceConfig, total: u128) -> (end: Option<RunEnd>)
    ensures
        end == threshold_end(config@, total as nat),
{
    if total < config.min_threshold {
        return Some(RunEnd::BelowThreshold);
    }
    match config.max_threshold {
        Some(ceiling) => {
            if total > ceiling {
                return Some(RunEnd::AboveCeiling);
            }
        },
        None => {},
    }
    None
}

impl ClearanceOrchestrator {
    /// A run under `config` that has done nothing yet. Its first action is
    /// given by [`ClearanceOrchestrator::start`].
    pub fn new(config: ClearanceConfig) -> (run: Self)
        ensures
            run@ == initial_run(config@),
            run_wf(run@),
    {
        let run = ClearanceOrchestrator {
            config,
            phase: RunPhase::Fetching,
            obligations: Vec::new(),
            cursor: 0,
            client: None,
            settlements: Vec::new(),
            total: 0,
        };
        assert(run@.obligations =~= Seq::<RelationView>::empty());
        run
    }

    /// Whether the run is in a state that a run can be in. Every run made
    /// by [`ClearanceOrchestrator::new`] is, and every turn keeps it so.
    pub fn well_formed(&self) -> (ok: bool)
        ensures
            ok == run_wf(self@),
    {
        let settling = match self.phase {
            RunPhase::Settling => true,
            _ => false,
        };
        let busy = match self.phase {
            RunPhase::Settling | RunPhase::Updating => true,
            _ => false,
        };
        self.cursor <= self.obligations.len() && self.settlements.len() == self.cursor && (!busy
            || self.cursor < self.obligations.len()) && settling == self.client.is_some()
    }

    /// Names the first piece of work: the fetch of the pending relations.
    pub fn start(&self) -> (action: RunAction)
        ensures
            action@ == RunActionView::FetchPending,
    {
        RunAction::FetchPending
    }

    /// Takes in how the last piece of work ended and names the next. A claim
    /// that this turn makes expires at `expiry_at`.
    pub fn step_at(&mut self, event: RunEvent, expiry_at: i64) -> (action: RunAction)
        requires
            run_wf(old(self)@),
        ensures
            (final(self)@, action@) == run_step(old(self)@, event@, expiry_at as int),
            run_wf(final(self)@),
    {
        match self.phase {
            RunPhase::Fetching => match event {
                RunEvent::Fetched(rows) => self.take_fetch(rows, expiry_at),
                _ => self.end_with(RunEnd::LedgerQueryFailed),
            },
            RunPhase::Settling => {
                let inner = match event {
                    RunEvent::Transport(inner) => inner,
                    _ => Event::Failed(Fault::Protocol),
                };
                self.take_transport(inner, expiry_at)
            },
            RunPhase::Updating => {
                let settlement = match event {
                    RunEvent::LedgerUpdated => Settlement::Settled,
                    _ => Settlement::SettledUnrecorded,
                };
                self.move_on(settlement, expiry_at)
            },
            RunPhase::Finished(end) => RunAction::Finish(
                RunSummary {
                    end,
                    total: self.total,
                    settlements: copy_settlements(&self.settlements),
                },
            ),
        }
    }

    /// Takes in how the last piece of work ended and names the next, reading
    /// the clock for the expiry of a claim that this turn makes: the
    /// configured number of days from now.
    pub fn step(&mut self, event: RunEvent) -> (action: RunAction)
        requires
            run_wf(old(self)@),
        ensures
            exists|expiry_at: i64|
                (final(self)@, action@) == #[trigger] run_step(
                    old(self)@,
                    event@,
                    expiry_at as int,
                ),
            run_wf(final(self)@),
    {
        let expiry_at = expiry_from(millis_days_from_now(self.config.claim_validity_days));
        self.step_at(event, expiry_at)
    }

    fn end_with(&mut self, end: RunEnd) -> (action: RunAction)
        requires
            old(self).cursor <= old(self).obligations.len(),
            old(self).settlements.len() == old(self).cursor,
        ensures
            (final(self)@, action@) == finish(old(self)@, end),
            run_wf(final(self)@),
    {
        self.phase = RunPhase::Finished(end);
        self.client = None;
        RunAction::Finish(
            RunSummary { end, total: self.total, settlements: copy_settlements(&self.settlements) },
        )
    }

    fn turn_to_next(&mut self, expiry_at: i64) -> (action: RunAction)
        requires
            old(self).cursor <= old(self).obligations.len(),
            old(self).settlements.len() == old(self).cursor,
        ensures
            (final(self)@, action@) == begin_next(old(self)@, expiry_at as int),
            run_wf(final(self)@),
    {
        if self.cursor < self.obligations.len() {
            let relation = &self.obligations[self.cursor];
            assert(self@.obligations[self.cursor as int] == relation@);
            let claim = claim_for_relation(relation, expiry_at);
            let mut client = SettlementProtocolClient::new(
                self.config.endpoint.clone(),
                self.config.timeout_ms,
                claim,
            );
            let action = client.start();
            self.phase = RunPhase::Settling;
            self.client = Some(client);
            RunAction::Transport(action)
        } else {
            self.end_with(RunEnd::Completed)
        }
    }

    fn move_on(&mut self, settlement: Settlement, expiry_at: i64) -> (action: RunAction)
        requires
            old(self).cursor < old(self).obligations.len(),
            old(self).settlements.len() == old(self).cursor,
        ensures
            (final(self)@, action@) == advance(old(self)@, settlement, expiry_at as int),
            run_wf(final(self)@),
    {
        self.cursor = self.cursor + 1;
        self.settlements.push(settlement);
        self.client = None;
        self.turn_to_next(expiry_at)
    }

    fn take_fetch(&mut self, rows: Vec<LedgerRow>, expiry_at: i64) -> (action: RunAction)
        requires
            old(self).cursor <= old(self).obligations.len(),
            old(self).settlements.len() == old(self).cursor,
        ensures
            (final(self)@, action@) == after_fetch(
                old(self)@,
                rows_view(rows@),
                expiry_at as int,
            ),
            run_wf(final(self)@),
    {
        let relations = match relations_from_rows(&rows) {
            Some(relations) => relations,
            None => {
                return self.end_with(RunEnd::LedgerQueryFailed);
            },
        };
        let total = match total_amount(&relations) {
            Some(total) => total,
            None => {
                return self.end_with(RunEnd::TotalOverflow);
            },
        };
        match check_thresholds(&self.config, total) {
            Some(end) => {
                self.total = total;
                self.end_with(end)
            },
            None => {
                self.obligations = relations;
                self.cursor = 0;
                self.settlements = Vec::new();
                self.total = total;
                self.turn_to_next(expiry_at)
            },
        }
    }

    fn take_transport(&mut self, event: Event, expiry_at: i64) -> (action: RunAction)
        requires
            run_wf(old(self)@),
            old(self).phase is Settling,
        ensures
            (final(self)@, action@) == after_transport(old(self)@, event@, expiry_at as int),
            run_wf(final(self)@),
    {
        let mut client = self.client.take().unwrap();
        let action = client.step(event);
        match action {
            Action::Done(Outcome::Settled) => {
                let relation = &self.obligations[self.cursor];
                assert(self@.obligations[self.cursor as int] == relation@);
                let mark = RunAction::MarkClaimed {
                    from_bank: relation.from_bank.clone(),
                    to_bank: relation.to_bank.clone(),
                    amount: relation.amount,
                    issued_at: relation.issued_at,
                };
                self.phase = RunPhase::Updating;
                mark
            },
            Action::Done(Outcome::Failed(failure)) => self.move_on(
                Settlement::Failed(failure),
                expiry_at,
            ),
            other => {
                self.client = Some(client);
                RunAction::Transport(other)
            },
        }
    }
}

} // verus!
