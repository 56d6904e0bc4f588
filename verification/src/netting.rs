//! Netting of observations into obligations per ordered pair of banks.

use vstd::prelude::*;
use crate::aggregate::{observations_view, DirectedObservation, ObservationView};
use crate::ledger::Status;
use crate::text::same_text;

verus! {

/// An ordered pair of banks: who owes, and whom.
pub type Pair = (Seq<char>, Seq<char>);

/// Mathematical content of a [`NetObligation`].
pub struct NetObligationView {
    pub from: Seq<char>,
    pub to: Seq<char>,
    pub amount: nat,
    pub status: Status,
}

/// The debt that `from` owes `to` once all observations of that ordered pair
/// are added up.
#[derive(Debug, PartialEq, Eq)]
pub struct NetObligation {
    pub from: String,
    pub to: String,
    pub amount: u128,
    pub status: Status,
}

impl View for NetObligation {
    type V = NetObligationView;

    open spec fn view(&self) -> NetObligationView {
        NetObligationView {
            from: self.from@,
            to: self.to@,
            amount: self.amount as nat,
            status: self.status,
        }
    }
}

impl Clone for NetObligation {
    fn clone(&self) -> (res: Self)
        ensures
            res == *self,
    {
        NetObligation {
            from: self.from.clone(),
            to: self.to.clone(),
            amount: self.amount,
            status: self.status,
        }
    }
}

/// Why a set of observations cannot be netted.
#[derive(Clone, Copy, Debug, PartialEq, Eq, Structural)]
pub enum NettingError {
    /// The total of some ordered pair does not fit 128 bits.
    Overflow,
}

/// How opposing totals are treated.
#[derive(Clone, Copy, Debug, PartialEq, Eq, Structural)]
pub enum NettingStrategy {
    /// Each ordered pair keeps its own total; a pair and its reverse are not
    /// set against each other.
    ForwardOnly,
    /// The smaller of two opposing totals is taken from the larger, and only
    /// what is left is owed.
    Bilateral,
}

/// The obligations of a sequence, each by its view.
pub open spec fn obligations_view(obligations: Seq<NetObligation>) -> Seq<NetObligationView> {
    Seq::new(obligations.len(), |i: int| obligations[i]@)
}

/// The ordered pair that an observation is about.
pub open spec fn pair_of(observation: ObservationView) -> Pair {
    (observation.from, observation.to)
}

/// The ordered pair that an obligation is about.
pub open spec fn obligation_pair(obligation: NetObligationView) -> Pair {
    (obligation.from, obligation.to)
}

/// What one observation adds to the total of `pair`.
pub open spec fn share(observation: ObservationView, pair: Pair) -> nat {
    if pair_of(observation) == pair {
        observation.amount
    } else {
        0
    }
}

/// The sum of the amounts of all observations of `pair`.
pub open spec fn pair_total(observations: Seq<ObservationView>, pair: Pair) -> nat
    decreases observations.len(),
{
    if observations.len() == 0 {
        0
    } else {
        pair_total(observations.drop_last(), pair) + share(observations.last(), pair)
    }
}

/// Some observation is about `pair`.
pub open spec fn occurs(observations: Seq<ObservationView>, pair: Pair) -> bool {
    exists|i: int| 0 <= i < observations.len() && pair_of(#[trigger] observations[i]) == pair
}

/// The total of every ordered pair fits 128 bits.
pub open spec fn totals_fit(observations: Seq<ObservationView>) -> bool {
    forall|pair: Pair| #[trigger] pair_total(observations, pair) <= u128::MAX
}

/// The net positions of a set of observations: each ordered pair that occurs,
/// with the sum of its amounts. A pair and its reverse stand side by side.
pub open spec fn net_positions(observations: Seq<ObservationView>) -> Map<Pair, nat> {
    Map::new(
        |pair: Pair| occurs(observations, pair),
        |pair: Pair| pair_total(observations, pair),
    )
}

/// The net positions once opposing totals are set against each other: each
/// ordered pair whose total exceeds that of its reverse, with the difference.
pub open spec fn bilateral_positions(observations: Seq<ObservationView>) -> Map<Pair, nat> {
    Map::new(
        |pair: Pair| pair_total(observations, pair) > pair_total(observations, (pair.1, pair.0)),
        |pair: Pair|
            (pair_total(observations, pair) - pair_total(observations, (pair.1, pair.0))) as nat,
    )
}

/// The positions that a strategy gives.
pub open spec fn positions_under(
    strategy: NettingStrategy,
    observations: Seq<ObservationView>,
) -> Map<Pair, nat> {
    match strategy {
        NettingStrategy::ForwardOnly => net_positions(observations),
        NettingStrategy::Bilateral => bilateral_positions(observations),
    }
}

/// Some obligation of the list is about `pair`.
pub open spec fn has_pair(obligations: Seq<NetObligationView>, pair: Pair) -> bool {
    exists|j: int| 0 <= j < obligations.len() && obligation_pair(#[trigger] obligations[j]) == pair
}

/// No two obligations of the list are about the same ordered pair.
pub open spec fn distinct_pairs(obligations: Seq<NetObligationView>) -> bool {
    forall|i: int, j: int|
        0 <= i < j < obligations.len() ==> obligation_pair(#[trigger] obligations[i])
            != obligation_pair(#[trigger] obligations[j])
}

/// Every obligation of the list is pending.
pub open spec fn all_pending(obligations: Seq<NetObligationView>) -> bool {
    forall|j: int| 0 <= j < obligations.len() ==> (#[trigger] obligations[j]).status is Pending
}

/// A list of obligations as a mapping from ordered pair to amount.
pub open spec fn positions_of(obligations: Seq<NetObligationView>) -> Map<Pair, nat> {
    Map::new(
        |pair: Pair| has_pair(obligations, pair),
        |pair: Pair|
            obligations[choose|j: int|
                0 <= j < obligations.len() && obligation_pair(#[trigger] obligations[j])
                    == pair].amount,
    )
}

/// A pair that no observation is about has a total of zero.
pub proof fn lemma_absent_pair_totals_zero(observations: Seq<ObservationView>, pair: Pair)
    requires
        !occurs(observations, pair),
    ensures
        pair_total(observations, pair) == 0,
    decreases observations.len(),
{
    if observations.len() > 0 {
        let rest = observations.drop_last();
        assert forall|i: int| 0 <= i < rest.len() implies pair_of(#[trigger] rest[i]) != pair by {
            assert(rest[i] == observations[i]);
        }
        lemma_absent_pair_totals_zero(rest, pair);
        assert(observations.last() == observations[observations.len() - 1]);
    }
}

/// The total of a pair never shrinks as observations are added.
pub proof fn lemma_prefix_total_bounded(observations: Seq<ObservationView>, k: int, pair: Pair)
    requires
        0 <= k <= observations.len(),
    ensures
        pair_total(observations.take(k), pair) <= pair_total(observations, pair),
    decreases observations.len() - k,
{
    if k < observations.len() {
        lemma_prefix_total_bounded(observations, k + 1, pair);
        assert(observations.take(k + 1).drop_last() =~= observations.take(k));
    } else {
        assert(observations.take(k) =~= observations);
    }
}

/// Looks for the obligation about the pair `from`, `to`.
fn find_pair(obligations: &Vec<NetObligation>, from: &str, to: &str) -> (found: Option<usize>)
    ensures
        match found {
            Some(j) => j < obligations.len() && obligation_pair(obligations[j as int]@) == (
                from@,
                to@,
            ),
            None => !has_pair(obligations_view(obligations@), (from@, to@)),
        },
{
    let mut j: usize = 0;
    while j < obligations.len()
        invariant
            j <= obligations.len(),
            forall|k: int|
                0 <= k < j ==> obligation_pair(#[trigger] obligations_view(obligations@)[k]) != (
                    from@,
                    to@,
                ),
        decreases obligations.len() - j,
    {
        if same_text(obligations[j].from.as_str(), from) && same_text(
            obligations[j].to.as_str(),
            to,
        ) {
            return Some(j);
        }
        assert(obligations_view(obligations@)[j as int] == obligations[j as int]@);
        j += 1;
    }
    None
}

/// What holds between the observations taken in so far and the obligations
/// built from them.
pub open spec fn nets(seen: Seq<ObservationView>, built: Seq<NetObligationView>) -> bool {
    &&& distinct_pairs(built)
    &&& all_pending(built)
    &&& forall|j: int|
        0 <= j < built.len() ==> occurs(seen, obligation_pair(#[trigger] built[j]))
    &&& forall|j: int|
        0 <= j < built.len() ==> (#[trigger] built[j]).amount == pair_total(
            seen,
            obligation_pair(built[j]),
        )
    &&& forall|k: int| 0 <= k < seen.len() ==> has_pair(built, pair_of(#[trigger] seen[k]))
}

/// The pending obligation that one observation alone amounts to.
pub open spec fn sole_obligation(observation: ObservationView) -> NetObligationView {
    NetObligationView {
        from: observation.from,
        to: observation.to,
        amount: observation.amount,
        status: Status::Pending,
    }
}

/// One more observation changes the total of its own pair and of no other.
proof fn lemma_total_of_push(seen: Seq<ObservationView>, observation: ObservationView, pair: Pair)
    ensures
        pair_total(seen.push(observation), pair) == pair_total(seen, pair) + share(
            observation,
            pair,
        ),
        occurs(seen, pair) ==> occurs(seen.push(observation), pair),
        occurs(seen.push(observation), pair_of(observation)),
{
    let next = seen.push(observation);
    assert(next.drop_last() =~= seen);
    assert(next.last() == observation);
    if occurs(seen, pair) {
        let k = choose|k: int| 0 <= k < seen.len() && pair_of(#[trigger] seen[k]) == pair;
        assert(next[k] == seen[k]);
    }
    assert(pair_of(next[seen.len() as int]) == pair_of(observation));
}

/// Obligations that net the observations seen still net them once a further
/// observation of a pair that is there already has been added to that pair's
/// obligation.
proof fn lemma_nets_grown(
    seen: Seq<ObservationView>,
    built: Seq<NetObligationView>,
    observation: ObservationView,
    j: int,
)
    requires
        nets(seen, built),
        0 <= j < built.len(),
        obligation_pair(built[j]) == pair_of(observation),
    ensures
        nets(
            seen.push(observation),
            built.update(
                j,
                NetObligationView { amount: built[j].amount + observation.amount, ..built[j] },
            ),
        ),
{
    let next = seen.push(observation);
    let after = built.update(
        j,
        NetObligationView { amount: built[j].amount + observation.amount, ..built[j] },
    );
    assert forall|m: int| 0 <= m < after.len() implies occurs(
        next,
        obligation_pair(#[trigger] after[m]),
    ) && after[m].amount == pair_total(next, obligation_pair(after[m])) by {
        lemma_total_of_push(seen, observation, obligation_pair(built[m]));
        assert(occurs(seen, obligation_pair(built[m])));
        if m != j {
            if m < j {
                assert(obligation_pair(built[m]) != obligation_pair(built[j]));
            } else {
                assert(obligation_pair(built[j]) != obligation_pair(built[m]));
            }
        }
    }
    assert forall|k: int| 0 <= k < next.len() implies has_pair(
        after,
        pair_of(#[trigger] next[k]),
    ) by {
        if k < seen.len() {
            assert(has_pair(built, pair_of(seen[k])));
            let m = choose|m: int|
                0 <= m < built.len() && obligation_pair(#[trigger] built[m]) == pair_of(seen[k]);
            assert(obligation_pair(after[m]) == pair_of(seen[k]));
        } else {
            assert(obligation_pair(after[j]) == pair_of(observation));
        }
    }
    assert forall|a: int, b: int| 0 <= a < b < after.len() implies obligation_pair(
        #[trigger] after[a],
    ) != obligation_pair(#[trigger] after[b]) by {
        assert(obligation_pair(built[a]) != obligation_pair(built[b]));
    }
    assert forall|m: int| 0 <= m < after.len() implies (#[trigger] after[m]).status is Pending by {
        assert(built[m].status is Pending);
    }
}

/// Obligations that net the observations seen still net them once a further
/// observation of a pair that is not there yet has been added as an
/// obligation of its own.
proof fn lemma_nets_extended(
    seen: Seq<ObservationView>,
    built: Seq<NetObligationView>,
    observation: ObservationView,
)
    requires
        nets(seen, built),
        !has_pair(built, pair_of(observation)),
    ensures
        nets(seen.push(observation), built.push(sole_obligation(observation))),
{
    let next = seen.push(observation);
    let after = built.push(sole_obligation(observation));
    let last = built.len() as int;
    let pair = pair_of(observation);
    assert(!occurs(seen, pair)) by {
        if occurs(seen, pair) {
            let k = choose|k: int| 0 <= k < seen.len() && pair_of(#[trigger] seen[k]) == pair;
            assert(has_pair(built, pair_of(seen[k])));
        }
    }
    lemma_absent_pair_totals_zero(seen, pair);
    assert forall|m: int| 0 <= m < after.len() implies occurs(
        next,
        obligation_pair(#[trigger] after[m]),
    ) && after[m].amount == pair_total(next, obligation_pair(after[m])) by {
        lemma_total_of_push(seen, observation, obligation_pair(after[m]));
        if m < last {
            assert(after[m] == built[m]);
            assert(occurs(seen, obligation_pair(built[m])));
            assert(has_pair(built, obligation_pair(built[m])));
        }
    }
    assert forall|k: int| 0 <= k < next.len() implies has_pair(
        after,
        pair_of(#[trigger] next[k]),
    ) by {
        if k < seen.len() {
            assert(has_pair(built, pair_of(seen[k])));
            let m = choose|m: int|
                0 <= m < built.len() && obligation_pair(#[trigger] built[m]) == pair_of(seen[k]);
            assert(after[m] == built[m]);
        } else {
            assert(obligation_pair(after[last]) == pair);
        }
    }
    assert forall|a: int, b: int| 0 <= a < b < after.len() implies obligation_pair(
        #[trigger] after[a],
    ) != obligation_pair(#[trigger] after[b]) by {
        assert(after[a] == built[a]);
        if b < last {
            assert(after[b] == built[b]);
        } else {
            assert(has_pair(built, obligation_pair(built[a])));
        }
    }
    assert forall|m: int| 0 <= m < after.len() implies (#[trigger] after[m]).status is Pending by {
        if m < last {
            assert(after[m] == built[m]);
        }
    }
}

/// Obligations that net a set of observations are its net positions, and
/// each of their amounts fits where theirs do.
pub proof fn lemma_nets_are_positions(seen: Seq<ObservationView>, built: Seq<NetObligationView>)
    requires
        nets(seen, built),
    ensures
        positions_of(built) == net_positions(seen),
        (forall|j: int| 0 <= j < built.len() ==> (#[trigger] built[j]).amount <= u128::MAX)
            ==> totals_fit(seen),
{
    assert forall|pair: Pair| has_pair(built, pair) <==> occurs(seen, pair) by {
        if has_pair(built, pair) {
            let j = choose|j: int|
                0 <= j < built.len() && obligation_pair(#[trigger] built[j]) == pair;
            assert(occurs(seen, obligation_pair(built[j])));
        }
        if occurs(seen, pair) {
            let k = choose|k: int| 0 <= k < seen.len() && pair_of(#[trigger] seen[k]) == pair;
            assert(has_pair(built, pair_of(seen[k])));
        }
    }
    assert forall|pair: Pair| has_pair(built, pair) implies positions_of(built)[pair]
        == pair_total(seen, pair) by {
        let j = choose|j: int| 0 <= j < built.len() && obligation_pair(#[trigger] built[j]) == pair;
        assert(built[j].amount == pair_total(seen, obligation_pair(built[j])));
    }
    assert(positions_of(built) =~= net_positions(seen));
    if forall|j: int| 0 <= j < built.len() ==> (#[trigger] built[j]).amount <= u128::MAX {
        assert forall|pair: Pair| #[trigger] pair_total(seen, pair) <= u128::MAX by {
            if occurs(seen, pair) {
                assert(has_pair(built, pair));
                let j = choose|j: int|
                    0 <= j < built.len() && obligation_pair(#[trigger] built[j]) == pair;
                assert(built[j].amount == pair_total(seen, obligation_pair(built[j])));
            } else {
                lemma_absent_pair_totals_zero(seen, pair);
            }
        }
    }
}

/// Nets observations: one pending obligation per ordered pair that occurs,
/// with the sum of the amounts observed for it. A pair and its reverse are
/// kept apart. Where a sum does not fit 128 bits the whole set is refused.
pub fn net_observations(observations: &Vec<DirectedObservation>) -> (res: Result<
    Vec<NetObligation>,
    NettingError,
>)
    ensures
        res is Ok <==> totals_fit(observations_view(observations@)),
        res matches Ok(obligations) ==> {
            &&& distinct_pairs(obligations_view(obligations@))
            &&& all_pending(obligations_view(obligations@))
            &&& positions_of(obligations_view(obligations@)) == net_positions(
                observations_view(observations@),
            )
        },
{
    let ghost all = observations_view(observations@);
    let mut built: Vec<NetObligation> = Vec::new();
    let mut i: usize = 0;
    assert(all.take(0) =~= Seq::<ObservationView>::empty());
    while i < observations.len()
        invariant
            i <= observations.len(),
            all == observations_view(observations@),
            nets(all.take(i as int), obligations_view(built@)),
        decreases observations.len() - i,
    {
        let observation = &observations[i];
        let ghost seen = all.take(i as int);
        let ghost before = obligations_view(built@);
        assert(all.take(i + 1) =~= seen.push(observation@));
        match find_pair(&built, observation.from.as_str(), observation.to.as_str()) {
            Some(j) => {
                assert(before[j as int] == built[j as int]@);
                let sum = match built[j].amount.checked_add(observation.amount) {
                    Some(sum) => sum,
                    None => {
                        proof {
                            let pair = pair_of(observation@);
                            lemma_total_of_push(seen, observation@, pair);
                            lemma_prefix_total_bounded(all, i + 1, pair);
                            assert(pair_total(all, pair) > u128::MAX);
                        }
                        return Err(NettingError::Overflow);
                    },
                };
                let mut grown = built[j].clone();
                grown.amount = sum;
                built.set(j, grown);
                proof {
                    lemma_nets_grown(seen, before, observation@, j as int);
                    assert(obligations_view(built@) =~= before.update(
                        j as int,
                        NetObligationView {
                            amount: before[j as int].amount + observation@.amount,
                            ..before[j as int]
                        },
                    ));
                }
            },
            None => {
                built.push(
                    NetObligation {
                        from: observation.from.clone(),
                        to: observation.to.clone(),
                        amount: observation.amount,
                        status: Status::Pending,
                    },
                );
                proof {
                    lemma_nets_extended(seen, before, observation@);
                    assert(obligations_view(built@) =~= before.push(
                        sole_obligation(observation@),
                    ));
                }
            },
        }
        i += 1;
    }
    proof {
        assert(all.take(observations.len() as int) =~= all);
        let result = obligations_view(built@);
        assert forall|j: int| 0 <= j < result.len() implies (#[trigger] result[j]).amount
            <= u128::MAX by {
            assert(result[j] == built[j]@);
        }
        lemma_nets_are_positions(all, result);
    }
    Ok(built)
}

/// Decides whether no two obligations of a list are about the same ordered
/// pair.
pub fn pairs_are_distinct(obligations: &Vec<NetObligation>) -> (ok: bool)
    ensures
        ok == distinct_pairs(obligations_view(obligations@)),
{
    let ghost all = obligations_view(obligations@);
    let mut j: usize = 0;
    while j < obligations.len()
        invariant
            j <= obligations.len(),
            all == obligations_view(obligations@),
            forall|a: int, b: int|
                0 <= a < b < j ==> obligation_pair(#[trigger] all[a]) != obligation_pair(
                    #[trigger] all[b],
                ),
        decreases obligations.len() - j,
    {
        let mut i: usize = 0;
        while i < j
            invariant
                i <= j < obligations.len(),
                all == obligations_view(obligations@),
                forall|a: int|
                    0 <= a < i ==> obligation_pair(#[trigger] all[a]) != obligation_pair(
                        all[j as int],
                    ),
            decreases j - i,
        {
            if same_text(obligations[i].from.as_str(), obligations[j].from.as_str()) && same_text(
                obligations[i].to.as_str(),
                obligations[j].to.as_str(),
            ) {
                assert(obligation_pair(all[i as int]) == obligation_pair(all[j as int]));
                return false;
            }
            i += 1;
        }
        j += 1;
    }
    true
}

/// The amount that a mapping holds for `pair`, and zero where it holds none.
pub open spec fn amount_or_zero(positions: Map<Pair, nat>, pair: Pair) -> nat {
    if positions.dom().contains(pair) {
        positions[pair]
    } else {
        0
    }
}

/// A mapping once each amount is set against that of the reverse pair: the
/// pairs whose amount exceeds the reverse amount, with the difference.
pub open spec fn offset_positions(positions: Map<Pair, nat>) -> Map<Pair, nat> {
    Map::new(
        |pair: Pair|
            positions.dom().contains(pair) && positions[pair] > amount_or_zero(
                positions,
                (pair.1, pair.0),
            ),
        |pair: Pair| (positions[pair] - amount_or_zero(positions, (pair.1, pair.0))) as nat,
    )
}

/// In a list without repeated pairs, the mapping holds for each obligation's
/// pair that obligation's amount.
pub proof fn lemma_position_of_entry(obligations: Seq<NetObligationView>, j: int)
    requires
        distinct_pairs(obligations),
        0 <= j < obligations.len(),
    ensures
        positions_of(obligations).dom().contains(obligation_pair(obligations[j])),
        positions_of(obligations)[obligation_pair(obligations[j])] == obligations[j].amount,
{
    let pair = obligation_pair(obligations[j]);
    assert(has_pair(obligations, pair));
    let chosen = choose|k: int|
        0 <= k < obligations.len() && obligation_pair(#[trigger] obligations[k]) == pair;
    if chosen < j {
        assert(obligation_pair(obligations[chosen]) != obligation_pair(obligations[j]));
    } else if j < chosen {
        assert(obligation_pair(obligations[j]) != obligation_pair(obligations[chosen]));
    }
}

/// Setting the net positions of a set of observations against each other
/// gives its bilateral positions.
pub proof fn lemma_offset_of_net(observations: Seq<ObservationView>)
    ensures
        offset_positions(net_positions(observations)) == bilateral_positions(observations),
{
    let net = net_positions(observations);
    assert forall|pair: Pair| amount_or_zero(net, pair) == pair_total(observations, pair) by {
        if !occurs(observations, pair) {
            lemma_absent_pair_totals_zero(observations, pair);
        }
    }
    assert forall|pair: Pair|
        offset_positions(net).dom().contains(pair) <==> bilateral_positions(
            observations,
        ).dom().contains(pair) by {
        assert(amount_or_zero(net, pair) == pair_total(observations, pair));
        assert(amount_or_zero(net, (pair.1, pair.0)) == pair_total(
            observations,
            (pair.1, pair.0),
        ));
    }
    assert forall|pair: Pair| offset_positions(net).dom().contains(pair) implies offset_positions(
        net,
    )[pair] == bilateral_positions(observations)[pair] by {
        assert(amount_or_zero(net, (pair.1, pair.0)) == pair_total(
            observations,
            (pair.1, pair.0),
        ));
    }
    assert(offset_positions(net) =~= bilateral_positions(observations));
}

/// What holds between the first `upto` obligations of a list and the
/// residuals built from them: each residual is that of one of them, holds
/// what is left of its pair, and each of them that leaves something has its
/// residual.
pub open spec fn offsets(
    given: Seq<NetObligationView>,
    upto: int,
    built: Seq<NetObligationView>,
) -> bool {
    let wanted = offset_positions(positions_of(given));
    &&& distinct_pairs(built)
    &&& all_pending(built)
    &&& forall|m: int|
        0 <= m < built.len() ==> exists|k: int|
            0 <= k < upto && obligation_pair(#[trigger] given[k]) == obligation_pair(
                #[trigger] built[m],
            )
    &&& forall|m: int|
        0 <= m < built.len() ==> wanted.dom().contains(obligation_pair(#[trigger] built[m]))
            && built[m].amount == wanted[obligation_pair(built[m])]
    &&& forall|k: int|
        0 <= k < upto && wanted.dom().contains(obligation_pair(#[trigger] given[k]))
            ==> has_pair(built, obligation_pair(given[k]))
}

/// The residual of a pair, as a pending obligation.
pub open spec fn residual(given: Seq<NetObligationView>, pair: Pair) -> NetObligationView {
    NetObligationView {
        from: pair.0,
        to: pair.1,
        amount: offset_positions(positions_of(given))[pair],
        status: Status::Pending,
    }
}

/// Residuals stay what they are where the next obligation leaves nothing.
proof fn lemma_offsets_skip(
    given: Seq<NetObligationView>,
    upto: int,
    built: Seq<NetObligationView>,
)
    requires
        offsets(given, upto, built),
        0 <= upto < given.len(),
        !offset_positions(positions_of(given)).dom().contains(obligation_pair(given[upto])),
    ensures
        offsets(given, upto + 1, built),
{
    assert forall|m: int| 0 <= m < built.len() implies exists|k: int|
        0 <= k < upto + 1 && obligation_pair(#[trigger] given[k]) == obligation_pair(
            #[trigger] built[m],
        ) by {
        let k = choose|k: int|
            0 <= k < upto && obligation_pair(#[trigger] given[k]) == obligation_pair(built[m]);
        assert(obligation_pair(given[k]) == obligation_pair(built[m]));
    }
}

/// Residuals grow by that of the next obligation where it leaves something.
proof fn lemma_offsets_keep(
    given: Seq<NetObligationView>,
    upto: int,
    built: Seq<NetObligationView>,
)
    requires
        offsets(given, upto, built),
        distinct_pairs(given),
        0 <= upto < given.len(),
        offset_positions(positions_of(given)).dom().contains(obligation_pair(given[upto])),
    ensures
        offsets(given, upto + 1, built.push(residual(given, obligation_pair(given[upto])))),
{
    let wanted = offset_positions(positions_of(given));
    let pair = obligation_pair(given[upto]);
    let after = built.push(residual(given, pair));
    let last = built.len() as int;
    assert(obligation_pair(after[last]) == pair);
    assert forall|a: int, b: int| 0 <= a < b < after.len() implies obligation_pair(
        #[trigger] after[a],
    ) != obligation_pair(#[trigger] after[b]) by {
        assert(after[a] == built[a]);
        if b < last {
            assert(after[b] == built[b]);
        } else {
            let k = choose|k: int|
                0 <= k < upto && obligation_pair(#[trigger] given[k]) == obligation_pair(
                    built[a],
                );
            assert(obligation_pair(given[k]) != obligation_pair(given[upto]));
        }
    }
    assert forall|m: int| 0 <= m < after.len() implies (#[trigger] after[m]).status is Pending by {
        if m < last {
            assert(after[m] == built[m]);
        }
    }
    assert forall|m: int| 0 <= m < after.len() implies exists|k: int|
        0 <= k < upto + 1 && obligation_pair(#[trigger] given[k]) == obligation_pair(
            #[trigger] after[m],
        ) by {
        if m < last {
            assert(after[m] == built[m]);
            let k = choose|k: int|
                0 <= k < upto && obligation_pair(#[trigger] given[k]) == obligation_pair(
                    built[m],
                );
            assert(obligation_pair(given[k]) == obligation_pair(after[m]));
        } else {
            assert(obligation_pair(given[upto]) == obligation_pair(after[m]));
        }
    }
    assert forall|m: int| 0 <= m < after.len() implies wanted.dom().contains(
        obligation_pair(#[trigger] after[m]),
    ) && after[m].amount == wanted[obligation_pair(after[m])] by {
        if m < last {
            assert(after[m] == built[m]);
        }
    }
    assert forall|k: int|
        0 <= k < upto + 1 && wanted.dom().contains(
            obligation_pair(#[trigger] given[k]),
        ) implies has_pair(after, obligation_pair(given[k])) by {
        if k < upto {
            assert(has_pair(built, obligation_pair(given[k])));
            let m = choose|m: int|
                0 <= m < built.len() && obligation_pair(#[trigger] built[m]) == obligation_pair(
                    given[k],
                );
            assert(after[m] == built[m]);
        } else {
            assert(obligation_pair(after[last]) == pair);
        }
    }
}

/// Residuals built from all obligations of a list are its offset positions.
proof fn lemma_offsets_are_positions(given: Seq<NetObligationView>, built: Seq<NetObligationView>)
    requires
        offsets(given, given.len() as int, built),
    ensures
        positions_of(built) == offset_positions(positions_of(given)),
{
    let wanted = offset_positions(positions_of(given));
    assert forall|pair: Pair| has_pair(built, pair) <==> wanted.dom().contains(pair) by {
        if has_pair(built, pair) {
            let m = choose|m: int|
                0 <= m < built.len() && obligation_pair(#[trigger] built[m]) == pair;
            assert(wanted.dom().contains(obligation_pair(built[m])));
        }
        if wanted.dom().contains(pair) {
            assert(has_pair(given, pair));
            let k = choose|k: int|
                0 <= k < given.len() && obligation_pair(#[trigger] given[k]) == pair;
            assert(has_pair(built, obligation_pair(given[k])));
        }
    }
    assert forall|pair: Pair| has_pair(built, pair) implies positions_of(built)[pair]
        == wanted[pair] by {
        let m = choose|m: int| 0 <= m < built.len() && obligation_pair(#[trigger] built[m]) == pair;
        lemma_position_of_entry(built, m);
    }
    assert(positions_of(built) =~= wanted);
}

/// Sets opposing obligations against each other: for each ordered pair the
/// amount owed in the reverse direction is taken from the amount owed, and
/// what is left stays as a pending obligation. Where nothing is left, no
/// obligation stays.
pub fn offset_opposing(obligations: &Vec<NetObligation>) -> (res: Vec<NetObligation>)
    requires
        distinct_pairs(obligations_view(obligations@)),
    ensures
        distinct_pairs(obligations_view(res@)),
        all_pending(obligations_view(res@)),
        positions_of(obligations_view(res@)) == offset_positions(
            positions_of(obligations_view(obligations@)),
        ),
{
    let ghost given = obligations_view(obligations@);
    let ghost positions = positions_of(given);
    let mut res: Vec<NetObligation> = Vec::new();
    let mut j: usize = 0;
    while j < obligations.len()
        invariant
            j <= obligations.len(),
            given == obligations_view(obligations@),
            positions == positions_of(given),
            distinct_pairs(given),
            offsets(given, j as int, obligations_view(res@)),
        decreases obligations.len() - j,
    {
        let entry = &obligations[j];
        let ghost pair = obligation_pair(given[j as int]);
        let ghost before = obligations_view(res@);
        assert(given[j as int] == entry@);
        let opposing: u128 = match find_pair(obligations, entry.to.as_str(), entry.from.as_str()) {
            Some(r) => {
                proof {
                    assert(given[r as int] == obligations[r as int]@);
                    lemma_position_of_entry(given, r as int);
                }
                obligations[r].amount
            },
            None => 0,
        };
        proof {
            lemma_position_of_entry(given, j as int);
            assert(opposing == amount_or_zero(positions, (pair.1, pair.0)));
        }
        if entry.amount > opposing {
            res.push(
                NetObligation {
                    from: entry.from.clone(),
                    to: entry.to.clone(),
                    amount: entry.amount - opposing,
                    status: Status::Pending,
                },
            );
            proof {
                lemma_offsets_keep(given, j as int, before);
                assert(obligations_view(res@) =~= before.push(residual(given, pair)));
            }
        } else {
            proof {
                lemma_offsets_skip(given, j as int, before);
            }
        }
        j += 1;
    }
    proof {
        lemma_offsets_are_positions(given, obligations_view(res@));
    }
    res
}

/// Nets observations under a strategy. [`NettingStrategy::ForwardOnly`] is
/// [`net_observations`]; [`NettingStrategy::Bilateral`] sets the totals of
/// opposing pairs against each other afterwards. Either way the set is
/// refused where the total of some ordered pair does not fit 128 bits.
pub fn net_with(observations: &Vec<DirectedObservation>, strategy: NettingStrategy) -> (res:
    Result<Vec<NetObligation>, NettingError>)
    ensures
        res is Ok <==> totals_fit(observations_view(observations@)),
        res matches Ok(obligations) ==> {
            &&& distinct_pairs(obligations_view(obligations@))
            &&& all_pending(obligations_view(obligations@))
            &&& positions_of(obligations_view(obligations@)) == positions_under(
                strategy,
                observations_view(observations@),
            )
        },
{
    let forward = match net_observations(observations) {
        Ok(forward) => forward,
        Err(e) => {
            return Err(e);
        },
    };
    match strategy {
        NettingStrategy::ForwardOnly => Ok(forward),
        NettingStrategy::Bilateral => {
            proof {
                lemma_offset_of_net(observations_view(observations@));
            }
            Ok(offset_opposing(&forward))
        },
    }
}

} // verus!
