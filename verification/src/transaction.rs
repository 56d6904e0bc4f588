//! Transfer records and the chains they form.

use vstd::prelude::*;

verus! {

/// Mathematical content of a [`Transaction`].
pub struct TransactionView {
    pub previous_tx_hash: Option<Seq<char>>,
    pub amount: nat,
    pub from_did: Seq<char>,
    pub to_did: Seq<char>,
    pub issued_at: int,
    pub expiry_at: int,
    pub tx_hash: Seq<char>,
    pub signed_tx_hash: Seq<char>,
}

/// One hop of a chain: a signed transfer of `amount` from `from_did` to
/// `to_did`, linked to its predecessor by `previous_tx_hash`.
#[derive(Debug, PartialEq, Eq)]
pub struct Transaction {
    pub previous_tx_hash: Option<String>,
    pub amount: u128,
    pub from_did: String,
    pub to_did: String,
    pub issued_at: i64,
    pub expiry_at: i64,
    pub tx_hash: String,
    pub signed_tx_hash: String,
}

impl View for Transaction {
    type V = TransactionView;

    open spec fn view(&self) -> TransactionView {
        TransactionView {
            previous_tx_hash: match self.previous_tx_hash {
                Some(h) => Some(h@),
                None => None,
            },
            amount: self.amount as nat,
            from_did: self.from_did@,
            to_did: self.to_did@,
            issued_at: self.issued_at as int,
            expiry_at: self.expiry_at as int,
            tx_hash: self.tx_hash@,
            signed_tx_hash: self.signed_tx_hash@,
        }
    }
}

impl Clone for Transaction {
    fn clone(&self) -> (res: Self)
        ensures
            res == *self,
    {
        Transaction {
            previous_tx_hash: self.previous_tx_hash.clone(),
            amount: self.amount,
            from_did: self.from_did.clone(),
            to_did: self.to_did.clone(),
            issued_at: self.issued_at,
            expiry_at: self.expiry_at,
            tx_hash: self.tx_hash.clone(),
            signed_tx_hash: self.signed_tx_hash.clone(),
        }
    }
}

/// The transaction in which every text is empty, every number zero and no
/// predecessor is named.
pub open spec fn blank_transaction() -> TransactionView {
    TransactionView {
        previous_tx_hash: None,
        amount: 0,
        from_did: Seq::empty(),
        to_did: Seq::empty(),
        issued_at: 0,
        expiry_at: 0,
        tx_hash: Seq::empty(),
        signed_tx_hash: Seq::empty(),
    }
}

impl Default for Transaction {
    fn default() -> (res: Self)
        ensures
            res@ == blank_transaction(),
    {
        Transaction {
            previous_tx_hash: None,
            amount: 0,
            from_did: String::new(),
            to_did: String::new(),
            issued_at: 0,
            expiry_at: 0,
            tx_hash: String::new(),
            signed_tx_hash: String::new(),
        }
    }
}

/// The links of a chain, each by its view.
pub open spec fn chain_view(chain: Seq<Transaction>) -> Seq<TransactionView> {
    Seq::new(chain.len(), |i: int| chain[i]@)
}

/// The chains of a bundle, each by its view.
pub open spec fn chains_view(chains: Seq<Vec<Transaction>>) -> Seq<Seq<TransactionView>> {
    Seq::new(chains.len(), |i: int| chain_view(chains[i]@))
}

/// First sender of a non-empty chain.
pub open spec fn origin(chain: Seq<TransactionView>) -> Seq<char>
    recommends
        chain.len() > 0,
{
    chain[0].from_did
}

/// Last recipient of a non-empty chain.
pub open spec fn terminus(chain: Seq<TransactionView>) -> Seq<char>
    recommends
        chain.len() > 0,
{
    chain[chain.len() - 1].to_did
}

/// What a chain settles: the amount of its final hop alone.
pub open spec fn settlement_amount(chain: Seq<TransactionView>) -> nat
    recommends
        chain.len() > 0,
{
    chain[chain.len() - 1].amount
}

/// Link `i` names the hash of link `i - 1` as its predecessor; the first link
/// names none.
pub open spec fn linked_at(chain: Seq<TransactionView>, i: int) -> bool {
    if i == 0 {
        chain[0].previous_tx_hash is None
    } else {
        chain[i].previous_tx_hash == Some(chain[i - 1].tx_hash)
    }
}

/// Every link of the chain is linked to its predecessor.
pub open spec fn hash_linked(chain: Seq<TransactionView>) -> bool {
    forall|i: int| 0 <= i < chain.len() ==> linked_at(chain, i)
}

/// Decides whether link `i` of `chain` is linked to its predecessor.
fn link_holds(chain: &Vec<Transaction>, i: usize) -> (ok: bool)
    requires
        i < chain.len(),
    ensures
        ok == linked_at(chain_view(chain@), i as int),
{
    match &chain[i].previous_tx_hash {
        None => i == 0,
        Some(previous) => i > 0 && *previous == chain[i - 1].tx_hash,
    }
}

/// Decides whether a chain is hash-linked from its first link to its last.
pub fn is_hash_linked(chain: &Vec<Transaction>) -> (ok: bool)
    ensures
        ok == hash_linked(chain_view(chain@)),
{
    let mut i: usize = 0;
    while i < chain.len()
        invariant
            i <= chain.len(),
            forall|j: int| 0 <= j < i ==> linked_at(chain_view(chain@), j),
        decreases chain.len() - i,
    {
        if !link_holds(chain, i) {
            return false;
        }
        i += 1;
    }
    true
}

} // verus!
