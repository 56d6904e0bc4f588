use interbank_clearance::{
    aggregate_chain, aggregate_checked, is_hash_linked, net_observations, observe_chains,
    ChainCheck, ChainError, DirectedObservation, Transaction,
};

fn chain_link(previous: Option<&str>, amount: u128, from: &str, to: &str, hash: &str) -> Transaction {
    Transaction {
        previous_tx_hash: previous.map(|h| h.to_string()),
        amount,
        from_did: from.to_string(),
        to_did: to.to_string(),
        issued_at: 1_700_000_000_000,
        expiry_at: 1_731_536_000_000,
        tx_hash: hash.to_string(),
        signed_tx_hash: format!("sig-{}", hash),
    }
}

#[test]
fn empty_chain_is_refused() {
    assert_eq!(aggregate_chain(&vec![]), Err(ChainError::Empty));
    assert_eq!(aggregate_checked(&vec![], ChainCheck::Trusting), Err(ChainError::Empty));
    assert_eq!(aggregate_checked(&vec![], ChainCheck::HashLinked), Err(ChainError::Empty));
}

#[test]
fn single_link_chain_gives_its_own_amount() {
    let chain = vec![chain_link(None, 25, "A", "B", "h1")];
    assert_eq!(
        aggregate_chain(&chain),
        Ok(Some(DirectedObservation { from: "A".to_string(), to: "B".to_string(), amount: 25 }))
    );
}

#[test]
fn amount_is_that_of_the_last_link() {
    let chain = vec![
        chain_link(None, 10, "A", "B", "h1"),
        chain_link(Some("h1"), 900, "B", "C", "h2"),
        chain_link(Some("h2"), 7, "C", "D", "h3"),
    ];
    assert_eq!(
        aggregate_chain(&chain),
        Ok(Some(DirectedObservation { from: "A".to_string(), to: "D".to_string(), amount: 7 }))
    );
}

#[test]
fn intermediate_amounts_do_not_matter() {
    let low = vec![
        chain_link(None, 1, "A", "B", "h1"),
        chain_link(Some("h1"), 2, "B", "C", "h2"),
        chain_link(Some("h2"), 60, "C", "D", "h3"),
    ];
    let high = vec![
        chain_link(None, u128::MAX, "A", "B", "h1"),
        chain_link(Some("h1"), 123_456, "B", "C", "h2"),
        chain_link(Some("h2"), 60, "C", "D", "h3"),
    ];
    assert_eq!(aggregate_chain(&low), aggregate_chain(&high));
    assert_eq!(aggregate_chain(&low).unwrap().unwrap().amount, 60);
}

#[test]
fn chain_that_returns_to_its_origin_gives_nothing() {
    let chain = vec![
        chain_link(None, 10, "A", "B", "h1"),
        chain_link(Some("h1"), 10, "B", "C", "h2"),
        chain_link(Some("h2"), 10, "C", "A", "h3"),
    ];
    assert_eq!(aggregate_chain(&chain), Ok(None));
    let own = vec![chain_link(None, 99, "A", "A", "h1")];
    assert_eq!(aggregate_chain(&own), Ok(None));
}

#[test]
fn loop_chain_produces_no_obligation() {
    let chain = vec![
        chain_link(None, 30, "A", "B", "h1"),
        chain_link(Some("h1"), 30, "B", "C", "h2"),
        chain_link(Some("h2"), 30, "C", "A", "h3"),
    ];
    let observations = observe_chains(&vec![chain], ChainCheck::Trusting).unwrap();
    assert_eq!(observations, vec![]);
    let obligations = net_observations(&observations).unwrap();
    assert_eq!(obligations, vec![]);
}

#[test]
fn hash_link_check_follows_the_hashes() {
    let linked = vec![
        chain_link(None, 1, "A", "B", "h1"),
        chain_link(Some("h1"), 2, "B", "C", "h2"),
        chain_link(Some("h2"), 3, "C", "D", "h3"),
    ];
    assert!(is_hash_linked(&linked));
    assert!(is_hash_linked(&vec![]));
    assert!(is_hash_linked(&vec![chain_link(None, 1, "A", "B", "h1")]));

    let first_has_predecessor = vec![chain_link(Some("h0"), 1, "A", "B", "h1")];
    assert!(!is_hash_linked(&first_has_predecessor));

    let wrong_hash = vec![
        chain_link(None, 1, "A", "B", "h1"),
        chain_link(Some("hx"), 2, "B", "C", "h2"),
    ];
    assert!(!is_hash_linked(&wrong_hash));

    let missing = vec![
        chain_link(None, 1, "A", "B", "h1"),
        chain_link(None, 2, "B", "C", "h2"),
    ];
    assert!(!is_hash_linked(&missing));
}

#[test]
fn checked_aggregation_refuses_unlinked_chains() {
    let unlinked = vec![
        chain_link(None, 1, "A", "B", "h1"),
        chain_link(Some("other"), 2, "B", "C", "h2"),
    ];
    assert_eq!(aggregate_checked(&unlinked, ChainCheck::HashLinked), Err(ChainError::Unlinked));
    assert_eq!(
        aggregate_checked(&unlinked, ChainCheck::Trusting),
        Ok(Some(DirectedObservation { from: "A".to_string(), to: "C".to_string(), amount: 2 }))
    );
    let linked = vec![
        chain_link(None, 1, "A", "B", "h1"),
        chain_link(Some("h1"), 2, "B", "C", "h2"),
    ];
    assert_eq!(
        aggregate_checked(&linked, ChainCheck::HashLinked),
        Ok(Some(DirectedObservation { from: "A".to_string(), to: "C".to_string(), amount: 2 }))
    );
}

#[test]
fn bundle_is_reduced_chain_by_chain() {
    let chains = vec![
        vec![chain_link(None, 5, "A", "B", "a1")],
        vec![chain_link(None, 8, "B", "C", "b1"), chain_link(Some("b1"), 9, "C", "B", "b2")],
        vec![chain_link(None, 4, "C", "D", "c1"), chain_link(Some("c1"), 6, "D", "A", "c2")],
    ];
    assert_eq!(
        observe_chains(&chains, ChainCheck::HashLinked),
        Ok(vec![
            DirectedObservation { from: "A".to_string(), to: "B".to_string(), amount: 5 },
            DirectedObservation { from: "C".to_string(), to: "A".to_string(), amount: 6 },
        ])
    );
    assert_eq!(observe_chains(&vec![], ChainCheck::Trusting), Ok(vec![]));
}

#[test]
fn bundle_with_an_empty_chain_is_refused() {
    let chains = vec![vec![chain_link(None, 5, "A", "B", "a1")], vec![]];
    assert_eq!(observe_chains(&chains, ChainCheck::Trusting), Err(ChainError::Empty));
}

#[test]
fn bundle_reports_the_first_refusal() {
    let chains = vec![
        vec![chain_link(None, 5, "A", "B", "a1")],
        vec![chain_link(Some("zz"), 5, "A", "B", "a1")],
        vec![],
    ];
    assert_eq!(observe_chains(&chains, ChainCheck::HashLinked), Err(ChainError::Unlinked));
    assert_eq!(observe_chains(&chains, ChainCheck::Trusting), Err(ChainError::Empty));
}

#[test]
fn default_transaction_is_blank() {
    assert_eq!(
        Transaction::default(),
        Transaction {
            previous_tx_hash: None,
            amount: 0,
            from_did: String::new(),
            to_did: String::new(),
            issued_at: 0,
            expiry_at: 0,
            tx_hash: String::new(),
            signed_tx_hash: String::new(),
        }
    );
}

#[test]
fn copied_transaction_is_equal() {
    let link = chain_link(Some("h0"), 77, "A", "B", "h1");
    assert_eq!(link.clone(), link);
}
