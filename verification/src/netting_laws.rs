//! What holds of netting whatever the observations are.

use vstd::prelude::*;
use crate::aggregate::{observations_view, DirectedObservation, ObservationView};
use crate::netting::{
    bilateral_positions, distinct_pairs, has_pair, lemma_position_of_entry, net_positions,
    obligation_pair, occurs, pair_of, pair_total, positions_of, share, totals_fit,
    NetObligationView, Pair,
};

verus! {

/// The total of a pair over two sets of observations taken together is the
/// sum of its totals over each.
pub proof fn lemma_total_of_concat(a: Seq<ObservationView>, b: Seq<ObservationView>, pair: Pair)
    ensures
        pair_total(a + b, pair) == pair_total(a, pair) + pair_total(b, pair),
    decreases b.len(),
{
    if b.len() == 0 {
        assert(a + b =~= a);
    } else {
        lemma_total_of_concat(a, b.drop_last(), pair);
        assert((a + b).drop_last() =~= a + b.drop_last());
        assert((a + b).last() == b.last());
    }
}

/// Taking one observation out takes its share out of the total.
pub proof fn lemma_total_without(observations: Seq<ObservationView>, i: int, pair: Pair)
    requires
        0 <= i < observations.len(),
    ensures
        pair_total(observations, pair) == pair_total(observations.remove(i), pair) + share(
            observations[i],
            pair,
        ),
    decreases observations.len(),
{
    if i == observations.len() - 1 {
        assert(observations.remove(i) =~= observations.drop_last());
    } else {
        lemma_total_without(observations.drop_last(), i, pair);
        assert(observations.remove(i).drop_last() =~= observations.drop_last().remove(i));
        assert(observations.remove(i).last() == observations.last());
    }
}

/// The total of a pair depends on which observations there are and how often,
/// not on their order.
pub proof fn lemma_total_of_permutation(
    a: Seq<ObservationView>,
    b: Seq<ObservationView>,
    pair: Pair,
)
    requires
        a.to_multiset() == b.to_multiset(),
    ensures
        pair_total(a, pair) == pair_total(b, pair),
    decreases a.len(),
{
    a.to_multiset_ensures();
    b.to_multiset_ensures();
    if a.len() > 0 {
        let x = a.last();
        assert(a.contains(x)) by {
            assert(a[a.len() - 1] == x);
        }
        assert(b.to_multiset().count(x) > 0);
        assert(b.contains(x));
        let i = choose|i: int| 0 <= i < b.len() && b[i] == x;
        assert(a.remove(a.len() - 1) =~= a.drop_last());
        assert(a.drop_last().to_multiset() == b.remove(i).to_multiset());
        lemma_total_of_permutation(a.drop_last(), b.remove(i), pair);
        lemma_total_without(b, i, pair);
    } else {
        assert(b.len() == 0);
    }
}

/// Whether a pair occurs does not depend on the order of the observations.
pub proof fn lemma_occurs_of_permutation(
    a: Seq<ObservationView>,
    b: Seq<ObservationView>,
    pair: Pair,
)
    requires
        a.to_multiset() == b.to_multiset(),
    ensures
        occurs(a, pair) == occurs(b, pair),
{
    a.to_multiset_ensures();
    b.to_multiset_ensures();
    if occurs(a, pair) {
        let i = choose|i: int| 0 <= i < a.len() && pair_of(#[trigger] a[i]) == pair;
        assert(a.contains(a[i]));
        assert(b.to_multiset().count(a[i]) > 0);
        assert(b.contains(a[i]));
        let j = choose|j: int| 0 <= j < b.len() && b[j] == a[i];
        assert(pair_of(b[j]) == pair);
    }
    if occurs(b, pair) {
        let i = choose|i: int| 0 <= i < b.len() && pair_of(#[trigger] b[i]) == pair;
        assert(b.contains(b[i]));
        assert(a.to_multiset().count(b[i]) > 0);
        assert(a.contains(b[i]));
        let j = choose|j: int| 0 <= j < a.len() && a[j] == b[i];
        assert(pair_of(a[j]) == pair);
    }
}

/// Netting does not depend on the order of the observations: two sequences
/// that hold the same observations equally often have the same net positions
/// under either strategy, and the one is refused for overflow exactly when
/// the other is.
pub proof fn lemma_net_order_independent(a: Seq<ObservationView>, b: Seq<ObservationView>)
    requires
        a.to_multiset() == b.to_multiset(),
    ensures
        net_positions(a) == net_positions(b),
        bilateral_positions(a) == bilateral_positions(b),
        totals_fit(a) == totals_fit(b),
{
    assert forall|pair: Pair| #[trigger] pair_total(a, pair) == pair_total(b, pair) by {
        lemma_total_of_permutation(a, b, pair);
    }
    assert forall|pair: Pair| #[trigger] occurs(a, pair) == occurs(b, pair) by {
        lemma_occurs_of_permutation(a, b, pair);
    }
    assert(net_positions(a) =~= net_positions(b));
    assert forall|pair: Pair|
        #[trigger] bilateral_positions(a).dom().contains(pair) == bilateral_positions(
            b,
        ).dom().contains(pair) by {
        assert(pair_total(a, pair) == pair_total(b, pair));
        assert(pair_total(a, (pair.1, pair.0)) == pair_total(b, (pair.1, pair.0)));
    }
    assert forall|pair: Pair| #[trigger]
        bilateral_positions(a).dom().contains(pair) implies bilateral_positions(a)[pair]
        == bilateral_positions(b)[pair] by {
        assert(pair_total(a, pair) == pair_total(b, pair));
        assert(pair_total(a, (pair.1, pair.0)) == pair_total(b, (pair.1, pair.0)));
    }
    assert(bilateral_positions(a) =~= bilateral_positions(b));
    if totals_fit(a) {
        assert forall|pair: Pair| #[trigger] pair_total(b, pair) <= u128::MAX by {
            assert(pair_total(a, pair) <= u128::MAX);
        }
    }
    if totals_fit(b) {
        assert forall|pair: Pair| #[trigger] pair_total(a, pair) <= u128::MAX by {
            assert(pair_total(b, pair) <= u128::MAX);
        }
    }
}

/// Two sets of observations net to the same positions whichever comes first.
pub proof fn lemma_net_of_concat_commutes(a: Seq<ObservationView>, b: Seq<ObservationView>)
    ensures
        net_positions(a + b) == net_positions(b + a),
{
    broadcast use vstd::seq_lib::lemma_seq_union_to_multiset_commutative;

    lemma_net_order_independent(a + b, b + a);
}

/// The obligations of a list, each read as one observation of its amount.
pub open spec fn as_observations(obligations: Seq<NetObligationView>) -> Seq<ObservationView> {
    Seq::new(
        obligations.len(),
        |j: int|
            ObservationView {
                from: obligations[j].from,
                to: obligations[j].to,
                amount: obligations[j].amount,
            },
    )
}

/// In a list without repeated pairs, the obligations up to `n` contribute to
/// the total of a pair the amount of the one obligation about it, if there
/// is one among them.
proof fn lemma_total_of_distinct(obligations: Seq<NetObligationView>, n: int, pair: Pair)
    requires
        distinct_pairs(obligations),
        0 <= n <= obligations.len(),
    ensures
        (forall|j: int| 0 <= j < n ==> obligation_pair(#[trigger] obligations[j]) != pair)
            ==> pair_total(as_observations(obligations).take(n), pair) == 0,
        forall|j: int|
            0 <= j < n && obligation_pair(#[trigger] obligations[j]) == pair ==> pair_total(
                as_observations(obligations).take(n),
                pair,
            ) == obligations[j].amount,
    decreases n,
{
    let seen = as_observations(obligations).take(n);
    if n > 0 {
        lemma_total_of_distinct(obligations, n - 1, pair);
        assert(seen.drop_last() =~= as_observations(obligations).take(n - 1));
        assert(pair_of(seen.last()) == obligation_pair(obligations[n - 1]));
        assert forall|j: int|
            0 <= j < n && obligation_pair(#[trigger] obligations[j]) == pair implies pair_total(
            seen,
            pair,
        ) == obligations[j].amount by {
            if j < n - 1 {
                assert(obligation_pair(obligations[j]) != obligation_pair(obligations[n - 1]));
            } else {
                assert forall|k: int| 0 <= k < n - 1 implies obligation_pair(
                    #[trigger] obligations[k],
                ) != pair by {
                    assert(obligation_pair(obligations[k]) != obligation_pair(obligations[n - 1]));
                }
            }
        }
    }
}

/// Netting what has been netted changes nothing: obligations without repeated
/// pairs, read as observations, have themselves as their net positions.
pub proof fn lemma_net_of_netted(obligations: Seq<NetObligationView>)
    requires
        distinct_pairs(obligations),
    ensures
        net_positions(as_observations(obligations)) == positions_of(obligations),
{
    let observations = as_observations(obligations);
    let n = obligations.len() as int;
    assert(observations.take(n) =~= observations);
    assert forall|pair: Pair|
        net_positions(observations).dom().contains(pair) <==> positions_of(
            obligations,
        ).dom().contains(pair) by {
        if occurs(observations, pair) {
            let i = choose|i: int|
                0 <= i < observations.len() && pair_of(#[trigger] observations[i]) == pair;
            assert(obligation_pair(obligations[i]) == pair);
        }
        if positions_of(obligations).dom().contains(pair) {
            let j = choose|j: int|
                0 <= j < obligations.len() && obligation_pair(#[trigger] obligations[j]) == pair;
            assert(pair_of(observations[j]) == pair);
        }
    }
    assert forall|pair: Pair|
        net_positions(observations).dom().contains(pair) implies net_positions(
        observations,
    )[pair] == positions_of(obligations)[pair] by {
        let i = choose|i: int|
            0 <= i < observations.len() && pair_of(#[trigger] observations[i]) == pair;
        assert(obligation_pair(obligations[i]) == pair);
        lemma_total_of_distinct(obligations, n, pair);
        lemma_position_of_entry(obligations, i);
    }
    assert(net_positions(observations) =~= positions_of(obligations));
}

/// Two results of netting agree whenever their inputs hold the same
/// observations equally often: netting twice, or netting the same
/// observations in another order, gives the same mapping.
pub proof fn lemma_results_agree_up_to_order(
    a: Seq<ObservationView>,
    b: Seq<ObservationView>,
    netted_a: Seq<NetObligationView>,
    netted_b: Seq<NetObligationView>,
)
    requires
        a.to_multiset() == b.to_multiset(),
        positions_of(netted_a) == net_positions(a),
        positions_of(netted_b) == net_positions(b),
    ensures
        positions_of(netted_a) == positions_of(netted_b),
{
    lemma_net_order_independent(a, b);
}

/// Observations in another order have their views in another order, and
/// nothing else changes: two sequences that hold the same observations
/// equally often have views that do so too.
pub proof fn lemma_views_of_permutation(
    a: Seq<DirectedObservation>,
    b: Seq<DirectedObservation>,
)
    requires
        a.to_multiset() == b.to_multiset(),
    ensures
        observations_view(a).to_multiset() == observations_view(b).to_multiset(),
    decreases a.len(),
{
    broadcast use vstd::multiset::group_multiset_axioms;

    a.to_multiset_ensures();
    b.to_multiset_ensures();
    let va = observations_view(a);
    let vb = observations_view(b);
    if a.len() == 0 {
        assert(b.len() == 0);
        assert(va =~= vb);
    } else {
        let x = a.last();
        assert(a.contains(x)) by {
            assert(a[a.len() - 1] == x);
        }
        assert(b.to_multiset().count(x) > 0);
        assert(b.contains(x));
        let i = choose|i: int| 0 <= i < b.len() && b[i] == x;
        assert(a.remove(a.len() - 1) =~= a.drop_last());
        assert(a.drop_last().to_multiset() == b.remove(i).to_multiset());
        lemma_views_of_permutation(a.drop_last(), b.remove(i));
        let rest_a = observations_view(a.drop_last());
        let rest_b = observations_view(b.remove(i));
        assert(va =~= rest_a.push(x@));
        assert(rest_b =~= vb.remove(i));
        rest_a.to_multiset_ensures();
        vb.to_multiset_ensures();
        assert(va.to_multiset() == rest_a.to_multiset().insert(x@));
        assert(rest_b.to_multiset() == vb.to_multiset().remove(vb[i]));
        assert(vb[i] == x@);
        assert(vb.contains(x@)) by {
            assert(vb[i] == x@);
        }
        assert(vb.to_multiset().count(x@) > 0);
        assert(vb.to_multiset() =~= vb.to_multiset().remove(x@).insert(x@));
    }
}

/// Netting keeps the parties of a debt apart: where no observation is from
/// a bank to itself, neither is any obligation that nets them.
pub proof fn lemma_obligations_keep_parties_apart(
    observations: Seq<ObservationView>,
    obligations: Seq<NetObligationView>,
)
    requires
        forall|i: int|
            0 <= i < observations.len() ==> (#[trigger] observations[i]).from
                != observations[i].to,
        positions_of(obligations) == net_positions(observations),
    ensures
        forall|j: int|
            0 <= j < obligations.len() ==> (#[trigger] obligations[j]).from != obligations[j].to,
{
    assert forall|j: int| 0 <= j < obligations.len() implies (#[trigger] obligations[j]).from
        != obligations[j].to by {
        let pair = obligation_pair(obligations[j]);
        assert(has_pair(obligations, pair));
        assert(positions_of(obligations).dom().contains(pair));
        assert(net_positions(observations).dom().contains(pair));
        assert(occurs(observations, pair));
        let i = choose|i: int|
            0 <= i < observations.len() && pair_of(#[trigger] observations[i]) == pair;
        assert(observations[i].from != observations[i].to);
    }
}

} // verus!
