use interbank_clearance::{
    check_thresholds, claim_for_relation, net_observations, observe_chains, relations_from_rows,
    total_amount, AckResponse, Action, ChainCheck, ClaimRequest, ClaimResponse,
    ClearanceConfig, ClearanceOrchestrator, Event, Failure, Fault, Incoming, Ledger, LedgerRow,
    MessageKind, Outgoing, Relation, RunAction, RunEnd, RunEvent, RunPhase, RunSummary, Settlement, Status,
    Transaction,
};

const ENDPOINT: &str = "ws://localhost:8000/v3/api/offline/claim/";
const EXPIRY: i64 = 1_800_000_000_000;

fn config_with(min_threshold: u128, max_threshold: Option<u128>) -> ClearanceConfig {
    ClearanceConfig {
        endpoint: ENDPOINT.to_string(),
        min_threshold,
        max_threshold,
        timeout_ms: 2500,
        claim_validity_days: 365,
    }
}

fn pending_relation(from: &str, to: &str, amount: u128, issued_at: i64) -> Relation {
    Relation {
        from_bank: from.to_string(),
        to_bank: to.to_string(),
        amount,
        issued_at,
        status: Status::Pending,
    }
}

fn ledger_with(relations: &[(&str, &str, u128, i64)]) -> Ledger {
    let mut ledger = Ledger::new();
    for (from, to, amount, issued_at) in relations {
        ledger.record(from.to_string(), to.to_string(), *amount, *issued_at);
    }
    ledger
}

/// How the counterparty of a test answers the claim of one creditor.
#[derive(Clone, Copy)]
enum Answer {
    Accept,
    RejectClaim,
    RejectAck,
    Silent,
    Garbage,
    Unreachable,
}

/// What a run did to the world.
#[derive(Default)]
struct Trace {
    fetches: usize,
    opened: Vec<String>,
    claims: Vec<ClaimRequest>,
    acks: Vec<String>,
    receives: usize,
    closes: usize,
    marks: Vec<(String, String, u128, i64)>,
}

fn run_to_end(
    run: &mut ClearanceOrchestrator,
    ledger: &mut Ledger,
    answer_for: &dyn Fn(&ClaimRequest) -> Answer,
    ledger_fails: bool,
) -> (RunSummary, Trace) {
    let mut trace = Trace::default();
    let mut answer = Answer::Accept;
    let mut last_was_claim = false;
    let mut action = run.start();
    for _ in 0..10_000 {
        assert!(run.well_formed());
        let event = match action {
            RunAction::FetchPending => {
                trace.fetches += 1;
                RunEvent::Fetched(ledger.fetch_pending_rows())
            }
            RunAction::Transport(Action::Open { endpoint, timeout_ms }) => {
                assert_eq!(timeout_ms, 2500);
                trace.opened.push(endpoint);
                RunEvent::Transport(Event::Opened)
            }
            RunAction::Transport(Action::Send { message, timeout_ms }) => {
                assert_eq!(timeout_ms, 2500);
                match message {
                    Outgoing::Claim(claim) => {
                        answer = answer_for(&claim);
                        trace.claims.push(claim);
                        last_was_claim = true;
                    }
                    Outgoing::Ack { ack_id } => {
                        trace.acks.push(ack_id);
                        last_was_claim = false;
                    }
                }
                match answer {
                    Answer::Unreachable => RunEvent::Transport(Event::Failed(Fault::Connectivity)),
                    _ => RunEvent::Transport(Event::Sent),
                }
            }
            RunAction::Transport(Action::Receive { expecting, timeout_ms }) => {
                assert_eq!(timeout_ms, 2500);
                assert_eq!(expecting == MessageKind::Claim, last_was_claim);
                trace.receives += 1;
                let claim_ok = |success: bool| {
                    Event::Received(Incoming::Claim(ClaimResponse {
                        success,
                        ack_id: format!("ack-{}", trace.claims.len()),
                        transaction: None,
                    }))
                };
                let ack_ok = |success: bool| {
                    Event::Received(Incoming::Ack(AckResponse {
                        success,
                        message: "done".to_string(),
                    }))
                };
                RunEvent::Transport(match (answer, last_was_claim) {
                    (Answer::Silent, _) => Event::Failed(Fault::Timeout),
                    (Answer::Garbage, _) => Event::Received(Incoming::Undecodable),
                    (Answer::RejectClaim, true) => claim_ok(false),
                    (_, true) => claim_ok(true),
                    (Answer::RejectAck, false) => ack_ok(false),
                    (_, false) => ack_ok(true),
                })
            }
            RunAction::Transport(Action::Close) => {
                trace.closes += 1;
                RunEvent::Transport(Event::Closed)
            }
            RunAction::Transport(Action::Done(outcome)) => {
                panic!("the run passed on the end of a handshake: {:?}", outcome)
            }
            RunAction::MarkClaimed { from_bank, to_bank, amount, issued_at } => {
                trace.marks.push((from_bank.clone(), to_bank.clone(), amount, issued_at));
                if ledger_fails {
                    RunEvent::LedgerUpdateFailed
                } else {
                    ledger.mark_claimed(&from_bank, &to_bank, amount, issued_at);
                    RunEvent::LedgerUpdated
                }
            }
            RunAction::Finish(summary) => return (summary, trace),
        };
        action = run.step_at(event, EXPIRY);
    }
    panic!("the run did not end");
}

fn accept_all(_: &ClaimRequest) -> Answer {
    Answer::Accept
}

#[test]
fn opposing_relations_are_settled_independently() {
    let mut ledger = ledger_with(&[("A", "B", 150, 1000), ("B", "A", 5, 1001)]);
    let mut run = ClearanceOrchestrator::new(config_with(100, None));
    let (summary, trace) = run_to_end(&mut run, &mut ledger, &accept_all, false);

    assert_eq!(
        summary,
        RunSummary {
            end: RunEnd::Completed,
            total: 155,
            settlements: vec![Settlement::Settled, Settlement::Settled],
        }
    );
    assert_eq!(trace.opened, vec![ENDPOINT.to_string(), ENDPOINT.to_string()]);
    assert_eq!(trace.claims.len(), 2);
    assert_eq!(trace.claims[0].did, "B");
    assert_eq!(trace.claims[0].bank_did, "A");
    assert_eq!(trace.claims[0].amount, 150);
    assert_eq!(trace.claims[1].did, "A");
    assert_eq!(trace.claims[1].bank_did, "B");
    assert_eq!(trace.claims[1].amount, 5);
    assert_eq!(trace.acks, vec!["ack-1".to_string(), "ack-2".to_string()]);
    assert_eq!(trace.closes, 2);
    assert_eq!(
        trace.marks,
        vec![("A".to_string(), "B".to_string(), 150, 1000), ("B".to_string(), "A".to_string(), 5, 1001)]
    );
    assert_eq!(ledger.fetch_pending(), vec![]);
    assert_eq!(ledger.relations[0].status, Status::Claimed);
    assert_eq!(ledger.relations[1].status, Status::Claimed);
}

#[test]
fn loop_chain_leaves_nothing_to_settle() {
    let hop = |previous: Option<&str>, from: &str, to: &str, hash: &str| Transaction {
        previous_tx_hash: previous.map(|h| h.to_string()),
        amount: 500,
        from_did: from.to_string(),
        to_did: to.to_string(),
        issued_at: 1,
        expiry_at: 2,
        tx_hash: hash.to_string(),
        signed_tx_hash: String::new(),
    };
    let chain = vec![
        hop(None, "A", "B", "h1"),
        hop(Some("h1"), "B", "C", "h2"),
        hop(Some("h2"), "C", "A", "h3"),
    ];
    let observations = observe_chains(&vec![chain], ChainCheck::HashLinked).unwrap();
    let obligations = net_observations(&observations).unwrap();
    assert_eq!(obligations.len(), 0);
    let mut ledger = Ledger::new();
    ledger.persist(&obligations, 1000);
    assert_eq!(ledger.relations, vec![]);

    let mut gated = ClearanceOrchestrator::new(config_with(100, None));
    let (summary, trace) = run_to_end(&mut gated, &mut ledger, &accept_all, false);
    assert_eq!(summary, RunSummary { end: RunEnd::BelowThreshold, total: 0, settlements: vec![] });
    assert_eq!(trace.opened.len(), 0);
    assert_eq!(trace.marks.len(), 0);

    let mut open = ClearanceOrchestrator::new(config_with(0, None));
    let (summary, trace) = run_to_end(&mut open, &mut ledger, &accept_all, false);
    assert_eq!(summary, RunSummary { end: RunEnd::Completed, total: 0, settlements: vec![] });
    assert_eq!(trace.opened.len(), 0);
    assert_eq!(trace.marks.len(), 0);
}

#[test]
fn rejected_acknowledgment_leaves_the_obligation_pending() {
    let mut ledger = ledger_with(&[("A", "B", 150, 1000)]);
    let before = ledger_with(&[("A", "B", 150, 1000)]);
    let mut run = ClearanceOrchestrator::new(config_with(100, None));
    let (summary, trace) = run_to_end(&mut run, &mut ledger, &|_| Answer::RejectAck, false);

    assert_eq!(
        summary,
        RunSummary {
            end: RunEnd::Completed,
            total: 150,
            settlements: vec![Settlement::Failed(Failure::AckRejected)],
        }
    );
    assert_eq!(trace.claims.len(), 1);
    assert_eq!(trace.acks, vec!["ack-1".to_string()]);
    assert_eq!(trace.marks.len(), 0);
    assert_eq!(trace.closes, 1);
    assert_eq!(ledger, before);
    assert_eq!(ledger.fetch_pending(), vec![pending_relation("A", "B", 150, 1000)]);
}

#[test]
fn total_below_threshold_ends_the_run_at_once() {
    let mut ledger = ledger_with(&[("A", "B", 40, 1000), ("B", "C", 2, 1000)]);
    let before = ledger_with(&[("A", "B", 40, 1000), ("B", "C", 2, 1000)]);
    let mut run = ClearanceOrchestrator::new(config_with(100, None));
    assert_eq!(run.start(), RunAction::FetchPending);
    let action = run.step_at(RunEvent::Fetched(ledger.fetch_pending_rows()), EXPIRY);
    assert_eq!(
        action,
        RunAction::Finish(RunSummary { end: RunEnd::BelowThreshold, total: 42, settlements: vec![] })
    );
    assert_eq!(run.phase, RunPhase::Finished(RunEnd::BelowThreshold));

    let mut again = ClearanceOrchestrator::new(config_with(100, None));
    let (summary, trace) = run_to_end(&mut again, &mut ledger, &accept_all, false);
    assert_eq!(summary.end, RunEnd::BelowThreshold);
    assert_eq!(trace.fetches, 1);
    assert_eq!(trace.opened.len(), 0);
    assert_eq!(trace.claims.len(), 0);
    assert_eq!(trace.receives, 0);
    assert_eq!(trace.closes, 0);
    assert_eq!(trace.marks.len(), 0);
    assert_eq!(ledger, before);
}

#[test]
fn rejected_claim_is_followed_by_no_acknowledgment_and_no_update() {
    let mut ledger = ledger_with(&[("A", "B", 150, 1000), ("C", "D", 60, 1002)]);
    let mut run = ClearanceOrchestrator::new(config_with(100, None));
    let reject_b = |claim: &ClaimRequest| {
        if claim.did == "B" {
            Answer::RejectClaim
        } else {
            Answer::Accept
        }
    };
    let (summary, trace) = run_to_end(&mut run, &mut ledger, &reject_b, false);
    assert_eq!(
        summary.settlements,
        vec![Settlement::Failed(Failure::ClaimRejected), Settlement::Settled]
    );
    assert_eq!(trace.claims.len(), 2);
    assert_eq!(trace.acks, vec!["ack-2".to_string()]);
    assert_eq!(trace.marks, vec![("C".to_string(), "D".to_string(), 60, 1002)]);
    assert_eq!(trace.closes, 2);
    assert_eq!(ledger.fetch_pending(), vec![pending_relation("A", "B", 150, 1000)]);
}

#[test]
fn one_failing_counterparty_does_not_block_the_others() {
    for (answer, failure, closes) in [
        (Answer::Silent, Failure::Timeout, 3),
        (Answer::Garbage, Failure::Protocol, 3),
        (Answer::Unreachable, Failure::Connectivity, 3),
    ] {
        let mut ledger =
            ledger_with(&[("A", "B", 150, 1000), ("X", "Y", 1, 1001), ("C", "D", 60, 1002)]);
        let mut run = ClearanceOrchestrator::new(config_with(100, None));
        let pick = move |claim: &ClaimRequest| {
            if claim.did == "Y" {
                answer
            } else {
                Answer::Accept
            }
        };
        let (summary, trace) = run_to_end(&mut run, &mut ledger, &pick, false);
        assert_eq!(
            summary.settlements,
            vec![Settlement::Settled, Settlement::Failed(failure), Settlement::Settled]
        );
        assert_eq!(trace.opened.len(), 3);
        assert_eq!(trace.closes, closes);
        assert_eq!(trace.marks.len(), 2);
        assert_eq!(ledger.fetch_pending(), vec![pending_relation("X", "Y", 1, 1001)]);
    }
}

#[test]
fn connection_that_cannot_be_opened_fails_that_obligation_only() {
    let ledger = ledger_with(&[("A", "B", 150, 1000), ("C", "D", 60, 1002)]);
    let mut run = ClearanceOrchestrator::new(config_with(100, None));
    run.start();
    let open = run.step_at(RunEvent::Fetched(ledger.fetch_pending_rows()), EXPIRY);
    assert_eq!(
        open,
        RunAction::Transport(Action::Open { endpoint: ENDPOINT.to_string(), timeout_ms: 2500 })
    );
    let next = run.step_at(RunEvent::Transport(Event::Failed(Fault::Connectivity)), EXPIRY);
    assert_eq!(
        next,
        RunAction::Transport(Action::Open { endpoint: ENDPOINT.to_string(), timeout_ms: 2500 })
    );
    assert_eq!(run.cursor, 1);
    assert_eq!(run.settlements, vec![Settlement::Failed(Failure::Connectivity)]);
}

#[test]
fn failed_ledger_update_is_reported_and_the_run_goes_on() {
    let mut ledger = ledger_with(&[("A", "B", 150, 1000), ("C", "D", 60, 1002)]);
    let mut run = ClearanceOrchestrator::new(config_with(100, None));
    let (summary, trace) = run_to_end(&mut run, &mut ledger, &accept_all, true);
    assert_eq!(
        summary,
        RunSummary {
            end: RunEnd::Completed,
            total: 210,
            settlements: vec![Settlement::SettledUnrecorded, Settlement::SettledUnrecorded],
        }
    );
    assert_eq!(trace.marks.len(), 2);
    assert_eq!(ledger.fetch_pending().len(), 2);
}

#[test]
fn failed_fetch_ends_the_run() {
    let mut run = ClearanceOrchestrator::new(config_with(100, None));
    assert_eq!(run.start(), RunAction::FetchPending);
    assert_eq!(
        run.step_at(RunEvent::FetchFailed, EXPIRY),
        RunAction::Finish(RunSummary { end: RunEnd::LedgerQueryFailed, total: 0, settlements: vec![] })
    );
    assert_eq!(
        run.step_at(RunEvent::LedgerUpdated, EXPIRY),
        RunAction::Finish(RunSummary { end: RunEnd::LedgerQueryFailed, total: 0, settlements: vec![] })
    );
    assert!(run.well_formed());
}

#[test]
fn row_that_is_no_relation_ends_the_run() {
    let rows = vec![
        LedgerRow {
            from_bank: Some("A".to_string()),
            to_bank: Some("B".to_string()),
            amount: Some("150".to_string()),
            issued_at: Some(1000),
        },
        LedgerRow {
            from_bank: Some("A".to_string()),
            to_bank: Some("B".to_string()),
            amount: Some("lots".to_string()),
            issued_at: Some(1000),
        },
    ];
    assert_eq!(relations_from_rows(&rows), None);
    let mut run = ClearanceOrchestrator::new(config_with(100, None));
    assert_eq!(
        run.step_at(RunEvent::Fetched(rows), EXPIRY),
        RunAction::Finish(RunSummary { end: RunEnd::LedgerQueryFailed, total: 0, settlements: vec![] })
    );
}

#[test]
fn total_that_does_not_fit_ends_the_run() {
    let ledger = ledger_with(&[("A", "B", u128::MAX, 1000), ("C", "D", 1, 1002)]);
    let mut run = ClearanceOrchestrator::new(config_with(100, None));
    assert_eq!(
        run.step_at(RunEvent::Fetched(ledger.fetch_pending_rows()), EXPIRY),
        RunAction::Finish(RunSummary { end: RunEnd::TotalOverflow, total: 0, settlements: vec![] })
    );
    assert_eq!(total_amount(&ledger.fetch_pending()), None);
}

#[test]
fn thresholds_are_inclusive() {
    let bounded = config_with(100, Some(200));
    assert_eq!(check_thresholds(&bounded, 99), Some(RunEnd::BelowThreshold));
    assert_eq!(check_thresholds(&bounded, 100), None);
    assert_eq!(check_thresholds(&bounded, 155), None);
    assert_eq!(check_thresholds(&bounded, 200), None);
    assert_eq!(check_thresholds(&bounded, 201), Some(RunEnd::AboveCeiling));
    let unbounded = config_with(100, None);
    assert_eq!(check_thresholds(&unbounded, u128::MAX), None);
    assert_eq!(check_thresholds(&unbounded, 0), Some(RunEnd::BelowThreshold));
    assert_eq!(check_thresholds(&config_with(0, None), 0), None);
}

#[test]
fn total_at_the_floor_is_settled() {
    let mut ledger = ledger_with(&[("A", "B", 60, 1000), ("B", "A", 40, 1000)]);
    let mut run = ClearanceOrchestrator::new(config_with(100, None));
    let (summary, _) = run_to_end(&mut run, &mut ledger, &accept_all, false);
    assert_eq!(summary.end, RunEnd::Completed);
    assert_eq!(summary.total, 100);
    assert_eq!(summary.settlements.len(), 2);
}

#[test]
fn total_above_the_ceiling_ends_the_run() {
    let mut ledger = ledger_with(&[("A", "B", 150, 1000), ("B", "A", 51, 1000)]);
    let mut run = ClearanceOrchestrator::new(config_with(100, Some(200)));
    let (summary, trace) = run_to_end(&mut run, &mut ledger, &accept_all, false);
    assert_eq!(summary, RunSummary { end: RunEnd::AboveCeiling, total: 201, settlements: vec![] });
    assert_eq!(trace.opened.len(), 0);
    assert_eq!(trace.marks.len(), 0);
}

#[test]
fn total_is_the_sum_of_all_amounts() {
    assert_eq!(total_amount(&vec![]), Some(0));
    let relations = vec![
        pending_relation("A", "B", 150, 1),
        pending_relation("B", "A", 5, 2),
        pending_relation("A", "B", 150, 3),
    ];
    assert_eq!(total_amount(&relations), Some(305));
    let at_limit = vec![pending_relation("A", "B", u128::MAX - 5, 1), pending_relation("B", "A", 5, 2)];
    assert_eq!(total_amount(&at_limit), Some(u128::MAX));
}

#[test]
fn claim_wraps_the_relation_as_a_single_link() {
    let relation = pending_relation("debtor", "creditor", 150, 1000);
    assert_eq!(
        claim_for_relation(&relation, EXPIRY),
        ClaimRequest {
            did: "creditor".to_string(),
            bank_did: "debtor".to_string(),
            amount: 150,
            chained_transactions: vec![vec![Transaction {
                previous_tx_hash: None,
                amount: 150,
                from_did: "creditor".to_string(),
                to_did: "debtor".to_string(),
                issued_at: 1000,
                expiry_at: EXPIRY,
                tx_hash: String::new(),
                signed_tx_hash: String::new(),
            }]],
            clearance: Some(true),
        }
    );
}

#[test]
fn claim_of_a_turn_expires_when_the_turn_says() {
    let ledger = ledger_with(&[("A", "B", 150, 1000)]);
    let mut run = ClearanceOrchestrator::new(config_with(100, None));
    run.step_at(RunEvent::Fetched(ledger.fetch_pending_rows()), 4242);
    match run.step_at(RunEvent::Transport(Event::Opened), 9999) {
        RunAction::Transport(Action::Send { message: Outgoing::Claim(claim), .. }) => {
            assert_eq!(claim.chained_transactions[0][0].expiry_at, 4242);
        }
        other => panic!("unexpected action {:?}", other),
    }
}

#[test]
fn clock_gives_claims_an_expiry_in_the_configured_future() {
    let ledger = ledger_with(&[("A", "B", 150, 1000)]);
    let mut run = ClearanceOrchestrator::new(config_with(100, None));
    let now_ms = std::time::SystemTime::now()
        .duration_since(std::time::UNIX_EPOCH)
        .unwrap()
        .as_millis() as i64;
    run.step(RunEvent::Fetched(ledger.fetch_pending_rows()));
    let expiry = match run.step(RunEvent::Transport(Event::Opened)) {
        RunAction::Transport(Action::Send { message: Outgoing::Claim(claim), .. }) => {
            claim.chained_transactions[0][0].expiry_at
        }
        other => panic!("unexpected action {:?}", other),
    };
    let year_ms: i64 = 365 * 24 * 60 * 60 * 1000;
    assert!(expiry >= now_ms + year_ms);
    assert!(expiry <= now_ms + year_ms + 60_000);
}

#[test]
fn clock_that_cannot_tell_the_expiry_gives_none() {
    let ledger = ledger_with(&[("A", "B", 150, 1000)]);
    let mut config = config_with(100, None);
    config.claim_validity_days = i64::MAX;
    let mut run = ClearanceOrchestrator::new(config);
    run.step(RunEvent::Fetched(ledger.fetch_pending_rows()));
    match run.step(RunEvent::Transport(Event::Opened)) {
        RunAction::Transport(Action::Send { message: Outgoing::Claim(claim), .. }) => {
            assert_eq!(claim.chained_transactions[0][0].expiry_at, i64::MAX);
        }
        other => panic!("unexpected action {:?}", other),
    }
}

#[test]
fn event_of_another_kind_fails_the_handshake_under_way() {
    let ledger = ledger_with(&[("A", "B", 150, 1000)]);
    let mut run = ClearanceOrchestrator::new(config_with(100, None));
    run.step_at(RunEvent::Fetched(ledger.fetch_pending_rows()), EXPIRY);
    run.step_at(RunEvent::Transport(Event::Opened), EXPIRY);
    assert_eq!(run.step_at(RunEvent::LedgerUpdated, EXPIRY), RunAction::Transport(Action::Close));
    assert_eq!(
        run.step_at(RunEvent::Transport(Event::Closed), EXPIRY),
        RunAction::Finish(RunSummary {
            end: RunEnd::Completed,
            total: 150,
            settlements: vec![Settlement::Failed(Failure::Protocol)],
        })
    );
}

#[test]
fn new_run_is_well_formed_and_fetching() {
    let run = ClearanceOrchestrator::new(config_with(100, None));
    assert!(run.well_formed());
    assert_eq!(run.phase, RunPhase::Fetching);
    assert_eq!(run.cursor, 0);
    assert_eq!(run.client, None);
    let broken = ClearanceOrchestrator { cursor: 3, ..ClearanceOrchestrator::new(config_with(1, None)) };
    assert!(!broken.well_formed());
    let idle = ClearanceOrchestrator {
        phase: RunPhase::Settling,
        ..ClearanceOrchestrator::new(config_with(1, None))
    };
    assert!(!idle.well_formed());
}
