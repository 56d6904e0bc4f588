use interbank_clearance::{
    relation_from_row, row_from_relation, Ledger, LedgerRow, NetObligation, Relation, RowError,
    Status,
};

fn pending(from: &str, to: &str, amount: u128, issued_at: i64) -> Relation {
    Relation {
        from_bank: from.to_string(),
        to_bank: to.to_string(),
        amount,
        issued_at,
        status: Status::Pending,
    }
}

fn claimed(from: &str, to: &str, amount: u128, issued_at: i64) -> Relation {
    Relation { status: Status::Claimed, ..pending(from, to, amount, issued_at) }
}

fn sample_ledger() -> Ledger {
    let mut ledger = Ledger::new();
    ledger.record("A".to_string(), "B".to_string(), 150, 1000);
    ledger.record("B".to_string(), "A".to_string(), 5, 1000);
    ledger.record("A".to_string(), "C".to_string(), 42, 2000);
    ledger
}

#[test]
fn new_ledger_is_empty() {
    let ledger = Ledger::new();
    assert_eq!(ledger.relations, vec![]);
    assert_eq!(ledger.fetch_pending(), vec![]);
}

#[test]
fn record_adds_pending_relations_in_order() {
    let ledger = sample_ledger();
    assert_eq!(
        ledger.relations,
        vec![pending("A", "B", 150, 1000), pending("B", "A", 5, 1000), pending("A", "C", 42, 2000)]
    );
}

#[test]
fn record_merges_an_identical_pending_relation() {
    let mut ledger = sample_ledger();
    ledger.record("A".to_string(), "B".to_string(), 150, 1000);
    assert_eq!(ledger.relations.len(), 3);
    ledger.record("A".to_string(), "B".to_string(), 150, 1001);
    ledger.record("A".to_string(), "B".to_string(), 151, 1000);
    assert_eq!(ledger.relations.len(), 5);
}

#[test]
fn record_does_not_merge_into_a_claimed_relation() {
    let mut ledger = sample_ledger();
    ledger.mark_claimed("A", "B", 150, 1000);
    ledger.record("A".to_string(), "B".to_string(), 150, 1000);
    assert_eq!(
        ledger.relations,
        vec![
            claimed("A", "B", 150, 1000),
            pending("B", "A", 5, 1000),
            pending("A", "C", 42, 2000),
            pending("A", "B", 150, 1000),
        ]
    );
}

#[test]
fn mark_claimed_changes_the_matching_relation_only() {
    let mut ledger = sample_ledger();
    ledger.mark_claimed("A", "B", 150, 1000);
    assert_eq!(
        ledger.relations,
        vec![claimed("A", "B", 150, 1000), pending("B", "A", 5, 1000), pending("A", "C", 42, 2000)]
    );
}

#[test]
fn mark_claimed_without_match_changes_nothing() {
    let untouched = sample_ledger();
    for (from, to, amount, issued_at) in [
        ("A", "B", 151u128, 1000i64),
        ("A", "B", 150, 1001),
        ("B", "B", 150, 1000),
        ("A", "A", 150, 1000),
        ("X", "Y", 1, 1),
        ("a", "B", 150, 1000),
        ("", "", 0, 0),
    ] {
        let mut ledger = sample_ledger();
        ledger.mark_claimed(from, to, amount, issued_at);
        assert_eq!(ledger, untouched);
    }
}

#[test]
fn mark_claimed_twice_is_the_same_as_once() {
    let mut once = sample_ledger();
    once.mark_claimed("B", "A", 5, 1000);
    let mut twice = sample_ledger();
    twice.mark_claimed("B", "A", 5, 1000);
    twice.mark_claimed("B", "A", 5, 1000);
    assert_eq!(once, twice);
    assert_eq!(twice.relations[1], claimed("B", "A", 5, 1000));
}

#[test]
fn mark_claimed_leaves_claimed_relations_claimed() {
    let mut ledger = Ledger {
        relations: vec![claimed("A", "B", 150, 1000), pending("A", "B", 150, 1000)],
    };
    ledger.mark_claimed("A", "B", 150, 1000);
    assert_eq!(
        ledger.relations,
        vec![claimed("A", "B", 150, 1000), claimed("A", "B", 150, 1000)]
    );
}

#[test]
fn fetch_returns_the_pending_relations_in_order() {
    let mut ledger = sample_ledger();
    ledger.mark_claimed("B", "A", 5, 1000);
    assert_eq!(
        ledger.fetch_pending(),
        vec![pending("A", "B", 150, 1000), pending("A", "C", 42, 2000)]
    );
    ledger.mark_claimed("A", "B", 150, 1000);
    ledger.mark_claimed("A", "C", 42, 2000);
    assert_eq!(ledger.fetch_pending(), vec![]);
}

#[test]
fn fetch_as_rows_writes_amounts_in_decimal() {
    let ledger = sample_ledger();
    let rows = ledger.fetch_pending_rows();
    assert_eq!(rows.len(), 3);
    assert_eq!(
        rows[0],
        LedgerRow {
            from_bank: Some("A".to_string()),
            to_bank: Some("B".to_string()),
            amount: Some("150".to_string()),
            issued_at: Some(1000),
        }
    );
    assert_eq!(rows[2].amount, Some("42".to_string()));
}

#[test]
fn persist_records_one_relation_per_obligation() {
    let obligations = vec![
        NetObligation { from: "A".to_string(), to: "B".to_string(), amount: 150, status: Status::Pending },
        NetObligation { from: "B".to_string(), to: "A".to_string(), amount: 5, status: Status::Pending },
    ];
    let mut ledger = Ledger::new();
    ledger.persist(&obligations, 77);
    assert_eq!(ledger.relations, vec![pending("A", "B", 150, 77), pending("B", "A", 5, 77)]);
    ledger.persist(&obligations, 77);
    assert_eq!(ledger.relations.len(), 2);
    ledger.persist(&obligations, 78);
    assert_eq!(ledger.relations.len(), 4);
}

#[test]
fn row_is_read_into_a_pending_relation() {
    let row = LedgerRow {
        from_bank: Some("A".to_string()),
        to_bank: Some("B".to_string()),
        amount: Some("150".to_string()),
        issued_at: Some(1000),
    };
    assert_eq!(relation_from_row(&row), Ok(pending("A", "B", 150, 1000)));
}

#[test]
fn row_with_an_absent_property_is_refused() {
    let full = LedgerRow {
        from_bank: Some("A".to_string()),
        to_bank: Some("B".to_string()),
        amount: Some("150".to_string()),
        issued_at: Some(1000),
    };
    let rows = [
        LedgerRow { from_bank: None, ..row_copy(&full) },
        LedgerRow { to_bank: None, ..row_copy(&full) },
        LedgerRow { amount: None, ..row_copy(&full) },
        LedgerRow { issued_at: None, ..row_copy(&full) },
        LedgerRow { amount: Some("x".to_string()), issued_at: None, ..row_copy(&full) },
    ];
    for row in rows {
        assert_eq!(relation_from_row(&row), Err(RowError::MissingProperty));
    }
}

fn row_copy(row: &LedgerRow) -> LedgerRow {
    LedgerRow {
        from_bank: row.from_bank.clone(),
        to_bank: row.to_bank.clone(),
        amount: row.amount.clone(),
        issued_at: row.issued_at,
    }
}

#[test]
fn row_with_a_malformed_amount_is_refused() {
    for text in ["", "abc", "-5", "1.0", "340282366920938463463374607431768211456"] {
        let row = LedgerRow {
            from_bank: Some("A".to_string()),
            to_bank: Some("B".to_string()),
            amount: Some(text.to_string()),
            issued_at: Some(1000),
        };
        assert_eq!(relation_from_row(&row), Err(RowError::MalformedAmount));
    }
}

#[test]
fn relation_written_as_row_is_read_back() {
    let relation = pending("bank-a", "bank-b", u128::MAX, -5);
    assert_eq!(relation_from_row(&row_from_relation(&relation)), Ok(relation));
    let done = claimed("A", "B", 9, 1);
    assert_eq!(relation_from_row(&row_from_relation(&done)), Ok(pending("A", "B", 9, 1)));
}
