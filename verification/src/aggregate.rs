//! Reduction of chains to directed observations.

use vstd::prelude::*;
use crate::transaction::{
    chain_view, chains_view, hash_linked, is_hash_linked, origin, settlement_amount, terminus,
    Transaction, TransactionView,
};

verus! {

/// Mathematical content of a [`DirectedObservation`].
pub struct ObservationView {
    pub from: Seq<char>,
    pub to: Seq<char>,
    pub amount: nat,
}

/// The exposure that one chain evidences: `amount` moved from `from` to `to`.
#[derive(Debug, PartialEq, Eq)]
pub struct DirectedObservation {
    pub from: String,
    pub to: String,
    pub amount: u128,
}

impl View for DirectedObservation {
    type V = ObservationView;

    open spec fn view(&self) -> ObservationView {
        ObservationView { from: self.from@, to: self.to@, amount: self.amount as nat }
    }
}

impl Clone for DirectedObservation {
    fn clone(&self) -> (res: Self)
        ensures
            res == *self,
    {
        DirectedObservation {
            from: self.from.clone(),
            to: self.to.clone(),
            amount: self.amount,
        }
    }
}

/// Why a chain yields no answer.
#[derive(Clone, Copy, Debug, PartialEq, Eq, Structural)]
pub enum ChainError {
    /// The chain has no link.
    Empty,
    /// A link does not name its predecessor's hash.
    Unlinked,
}

/// How much of a chain is checked before its endpoints are trusted.
#[derive(Clone, Copy, Debug, PartialEq, Eq, Structural)]
pub enum ChainCheck {
    /// The endpoints are taken as given.
    Trusting,
    /// The chain must be hash-linked throughout.
    HashLinked,
}

/// What a non-empty chain amounts to between banks: nothing where it returns
/// to its origin, else its settlement amount from origin to terminus.
pub open spec fn observation_of(chain: Seq<TransactionView>) -> Option<ObservationView>
    recommends
        chain.len() > 0,
{
    if origin(chain) == terminus(chain) {
        None
    } else {
        Some(
            ObservationView {
                from: origin(chain),
                to: terminus(chain),
                amount: settlement_amount(chain),
            },
        )
    }
}

/// The view of an optional observation.
pub open spec fn observation_view(o: Option<DirectedObservation>) -> Option<ObservationView> {
    match o {
        Some(obs) => Some(obs@),
        None => None,
    }
}

/// What a chain is reduced to under a check: refused where it is empty or
/// fails the check, else its observation, if it has one.
pub open spec fn reduced(chain: Seq<TransactionView>, check: ChainCheck) -> Result<
    Option<ObservationView>,
    ChainError,
> {
    if chain.len() == 0 {
        Err(ChainError::Empty)
    } else if check is HashLinked && !hash_linked(chain) {
        Err(ChainError::Unlinked)
    } else {
        Ok(observation_of(chain))
    }
}

/// The view of a reduction's result.
pub open spec fn reduction_view(res: Result<Option<DirectedObservation>, ChainError>) -> Result<
    Option<ObservationView>,
    ChainError,
> {
    match res {
        Ok(o) => Ok(observation_view(o)),
        Err(e) => Err(e),
    }
}

/// Reduces a chain to its observation, trusting its endpoints.
///
/// An empty chain is refused. A chain that ends where it began yields no
/// observation. Any other chain yields the amount of its last link, from its
/// origin to its terminus, whatever the amounts of the links before.
pub fn aggregate_chain(chain: &Vec<Transaction>) -> (res: Result<
    Option<DirectedObservation>,
    ChainError,
>)
    ensures
        reduction_view(res) == reduced(chain_view(chain@), ChainCheck::Trusting),
        chain.len() == 0 <==> res is Err,
        chain.len() > 0 && origin(chain_view(chain@)) == terminus(chain_view(chain@)) ==> res
            == Ok::<Option<DirectedObservation>, ChainError>(None),
        chain.len() > 0 && origin(chain_view(chain@)) != terminus(chain_view(chain@)) ==> {
            &&& res matches Ok(Some(observation))
            &&& observation@.amount == chain[chain.len() - 1]@.amount
            &&& observation@.from == chain[0]@.from_did
            &&& observation@.to == chain[chain.len() - 1]@.to_did
        },
{
    if chain.len() == 0 {
        return Err(ChainError::Empty);
    }
    let first = &chain[0];
    let last = &chain[chain.len() - 1];
    if first.from_did == last.to_did {
        Ok(None)
    } else {
        Ok(
            Some(
                DirectedObservation {
                    from: first.from_did.clone(),
                    to: last.to_did.clone(),
                    amount: last.amount,
                },
            ),
        )
    }
}

/// Reduces a chain to its observation after the check asked for.
///
/// Under [`ChainCheck::HashLinked`] a chain in which some link does not name
/// its predecessor's hash is refused; under [`ChainCheck::Trusting`] nothing
/// is checked. An empty chain is refused either way.
pub fn aggregate_checked(chain: &Vec<Transaction>, check: ChainCheck) -> (res: Result<
    Option<DirectedObservation>,
    ChainError,
>)
    ensures
        reduction_view(res) == reduced(chain_view(chain@), check),
        chain.len() > 0 && origin(chain_view(chain@)) == terminus(chain_view(chain@)) ==> !(
        res matches Ok(Some(_))),
        res matches Ok(Some(observation)) ==> {
            &&& observation@.amount == chain[chain.len() - 1]@.amount
            &&& observation@.from == chain[0]@.from_did
            &&& observation@.to == chain[chain.len() - 1]@.to_did
            &&& observation@.from != observation@.to
        },
{
    if chain.len() == 0 {
        return Err(ChainError::Empty);
    }
    match check {
        ChainCheck::Trusting => {},
        ChainCheck::HashLinked => {
            if !is_hash_linked(chain) {
                return Err(ChainError::Unlinked);
            }
        },
    }
    aggregate_chain(chain)
}

/// What a bundle of chains is reduced to: the observations of its chains in
/// their order, or the error of the first chain that is refused.
pub open spec fn observed(chains: Seq<Seq<TransactionView>>, check: ChainCheck) -> Result<
    Seq<ObservationView>,
    ChainError,
>
    decreases chains.len(),
{
    if chains.len() == 0 {
        Ok(Seq::empty())
    } else {
        match observed(chains.drop_last(), check) {
            Err(e) => Err(e),
            Ok(before) => match reduced(chains.last(), check) {
                Err(e) => Err(e),
                Ok(None) => Ok(before),
                Ok(Some(observation)) => Ok(before.push(observation)),
            },
        }
    }
}

/// The observations of a sequence, each by its view.
pub open spec fn observations_view(observations: Seq<DirectedObservation>) -> Seq<
    ObservationView,
> {
    Seq::new(observations.len(), |i: int| observations[i]@)
}

/// The view of the result of reducing a bundle.
pub open spec fn observed_view(res: Result<Vec<DirectedObservation>, ChainError>) -> Result<
    Seq<ObservationView>,
    ChainError,
> {
    match res {
        Ok(observations) => Ok(observations_view(observations@)),
        Err(e) => Err(e),
    }
}

/// Reduces each chain of a bundle to its observation. Chains that end where
/// they began leave no observation; the first chain that is refused ends the
/// reduction with its error.
pub fn observe_chains(chains: &Vec<Vec<Transaction>>, check: ChainCheck) -> (res: Result<
    Vec<DirectedObservation>,
    ChainError,
>)
    ensures
        observed_view(res) == observed(chains_view(chains@), check),
{
    let ghost all = chains_view(chains@);
    let mut observations: Vec<DirectedObservation> = Vec::new();
    let mut i: usize = 0;
    assert(all.take(0) =~= Seq::<Seq<TransactionView>>::empty());
    assert(observations_view(observations@) =~= Seq::<ObservationView>::empty());
    while i < chains.len()
        invariant
            i <= chains.len(),
            all == chains_view(chains@),
            observed(all.take(i as int), check) == Ok::<Seq<ObservationView>, ChainError>(
                observations_view(observations@),
            ),
        decreases chains.len() - i,
    {
        let ghost before = observations_view(observations@);
        proof {
            assert(all.take(i + 1).drop_last() =~= all.take(i as int));
            assert(all.take(i + 1).last() == chain_view(chains[i as int]@));
        }
        match aggregate_checked(&chains[i], check) {
            Err(e) => {
                proof {
                    lemma_refusal_stays(all, i + 1, check);
                }
                return Err(e);
            },
            Ok(None) => {},
            Ok(Some(observation)) => {
                observations.push(observation);
                assert(observations_view(observations@) =~= before.push(observation@));
            },
        }
        i += 1;
    }
    assert(all.take(chains.len() as int) =~= all);
    Ok(observations)
}

/// Once a prefix of a bundle is refused, the bundle is refused with the same
/// error.
proof fn lemma_refusal_stays(chains: Seq<Seq<TransactionView>>, k: int, check: ChainCheck)
    requires
        0 <= k <= chains.len(),
        observed(chains.take(k), check) is Err,
    ensures
        observed(chains, check) == observed(chains.take(k), check),
    decreases chains.len() - k,
{
    if k < chains.len() {
        assert(chains.take(k + 1).drop_last() =~= chains.take(k));
        lemma_refusal_stays(chains, k + 1, check);
    } else {
        assert(chains.take(k) =~= chains);
    }
}

} // verus!
