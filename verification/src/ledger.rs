//! Ledger relations and the conditional update that settles them.
//!
//! The ledger is the system of record and lives outside this process. What
//! stands here is its contract: which relations a fetch returns, and what a
//! conditional update changes. [`Ledger`] is a ledger in memory that keeps
//! to that contract.

use vstd::prelude::*;
use crate::amount::{
    amount_of_text, format_amount, lemma_amount_round_trip, parse_amount, text_of_amount,
};
use crate::netting::{obligations_view, NetObligation, NetObligationView};
use crate::text::same_text;

verus! {

/// Lifecycle status of a relation.
#[derive(Clone, Copy, Debug, PartialEq, Eq, Structural)]
pub enum Status {
    Pending,
    Claimed,
}

/// Mathematical content of a [`Relation`].
pub struct RelationView {
    pub from_bank: Seq<char>,
    pub to_bank: Seq<char>,
    pub amount: nat,
    pub issued_at: int,
    pub status: Status,
}

/// A debt of `amount` that `from_bank` owes `to_bank`, recorded at
/// `issued_at`.
#[derive(Debug, PartialEq, Eq)]
pub struct Relation {
    pub from_bank: String,
    pub to_bank: String,
    pub amount: u128,
    pub issued_at: i64,
    pub status: Status,
}

impl View for Relation {
    type V = RelationView;

    open spec fn view(&self) -> RelationView {
        RelationView {
            from_bank: self.from_bank@,
            to_bank: self.to_bank@,
            amount: self.amount as nat,
            issued_at: self.issued_at as int,
            status: self.status,
        }
    }
}

impl Clone for Relation {
    fn clone(&self) -> (res: Self)
        ensures
            res == *self,
    {
        Relation {
            from_bank: self.from_bank.clone(),
            to_bank: self.to_bank.clone(),
            amount: self.amount,
            issued_at: self.issued_at,
            status: self.status,
        }
    }
}

/// The relations of a sequence, each by its view.
pub open spec fn relations_view(relations: Seq<Relation>) -> Seq<RelationView> {
    Seq::new(relations.len(), |i: int| relations[i]@)
}

/// Mathematical content of a [`LedgerRow`].
pub struct LedgerRowView {
    pub from_bank: Option<Seq<char>>,
    pub to_bank: Option<Seq<char>>,
    pub amount: Option<Seq<char>>,
    pub issued_at: Option<int>,
}

/// A pending relation as the store hands it out: each property may be
/// absent, and the amount is decimal text.
#[derive(Debug, PartialEq, Eq)]
pub struct LedgerRow {
    pub from_bank: Option<String>,
    pub to_bank: Option<String>,
    pub amount: Option<String>,
    pub issued_at: Option<i64>,
}

impl View for LedgerRow {
    type V = LedgerRowView;

    open spec fn view(&self) -> LedgerRowView {
        LedgerRowView {
            from_bank: match self.from_bank {
                Some(s) => Some(s@),
                None => None,
            },
            to_bank: match self.to_bank {
                Some(s) => Some(s@),
                None => None,
            },
            amount: match self.amount {
                Some(s) => Some(s@),
                None => None,
            },
            issued_at: match self.issued_at {
                Some(t) => Some(t as int),
                None => None,
            },
        }
    }
}

/// Why a row is no relation.
#[derive(Clone, Copy, Debug, PartialEq, Eq, Structural)]
pub enum RowError {
    /// One of the four properties is absent.
    MissingProperty,
    /// The amount is not the decimal text of a 128-bit amount.
    MalformedAmount,
}

/// The pending relation that a row stands for.
pub open spec fn relation_of(row: LedgerRowView) -> Result<RelationView, RowError> {
    if row.from_bank is None || row.to_bank is None || row.amount is None || row.issued_at
        is None {
        Err(RowError::MissingProperty)
    } else {
        match amount_of_text(row.amount->Some_0) {
            None => Err(RowError::MalformedAmount),
            Some(amount) => Ok(
                RelationView {
                    from_bank: row.from_bank->Some_0,
                    to_bank: row.to_bank->Some_0,
                    amount: amount as nat,
                    issued_at: row.issued_at->Some_0,
                    status: Status::Pending,
                },
            ),
        }
    }
}

/// The view of a relation or of the error in its place.
pub open spec fn relation_result_view(r: Result<Relation, RowError>) -> Result<
    RelationView,
    RowError,
> {
    match r {
        Ok(relation) => Ok(relation@),
        Err(e) => Err(e),
    }
}

/// Reads a row into the pending relation it stands for.
pub fn relation_from_row(row: &LedgerRow) -> (res: Result<Relation, RowError>)
    ensures
        relation_result_view(res) == relation_of(row@),
{
    let from_bank = match &row.from_bank {
        Some(s) => s,
        None => {
            return Err(RowError::MissingProperty);
        },
    };
    let to_bank = match &row.to_bank {
        Some(s) => s,
        None => {
            return Err(RowError::MissingProperty);
        },
    };
    let amount_text = match &row.amount {
        Some(s) => s,
        None => {
            return Err(RowError::MissingProperty);
        },
    };
    let issued_at = match row.issued_at {
        Some(t) => t,
        None => {
            return Err(RowError::MissingProperty);
        },
    };
    match parse_amount(amount_text.as_str()) {
        None => Err(RowError::MalformedAmount),
        Some(amount) => Ok(
            Relation {
                from_bank: from_bank.clone(),
                to_bank: to_bank.clone(),
                amount,
                issued_at,
                status: Status::Pending,
            },
        ),
    }
}

/// The row that the store hands out for a relation: every property present,
/// the amount in decimal without sign or leading zeros.
pub open spec fn row_of(relation: RelationView) -> LedgerRowView {
    LedgerRowView {
        from_bank: Some(relation.from_bank),
        to_bank: Some(relation.to_bank),
        amount: Some(text_of_amount(relation.amount)),
        issued_at: Some(relation.issued_at),
    }
}

/// The row of a pending relation is read back as that relation.
pub proof fn lemma_row_round_trip(relation: RelationView)
    requires
        relation.amount <= u128::MAX,
    ensures
        relation_of(row_of(relation)) == Ok::<RelationView, RowError>(
            RelationView { status: Status::Pending, ..relation },
        ),
{
    lemma_amount_round_trip(relation.amount as u128);
}

/// Writes a relation as the row that the store would hand out for it.
pub fn row_from_relation(relation: &Relation) -> (row: LedgerRow)
    ensures
        row@ == row_of(relation@),
{
    LedgerRow {
        from_bank: Some(relation.from_bank.clone()),
        to_bank: Some(relation.to_bank.clone()),
        amount: Some(format_amount(relation.amount)),
        issued_at: Some(relation.issued_at),
    }
}

/// The four values that name a relation in a conditional update.
pub struct UpdateKey {
    pub from_bank: Seq<char>,
    pub to_bank: Seq<char>,
    pub amount: nat,
    pub issued_at: int,
}

/// The key that names a relation.
pub open spec fn key_of(relation: RelationView) -> UpdateKey {
    UpdateKey {
        from_bank: relation.from_bank,
        to_bank: relation.to_bank,
        amount: relation.amount,
        issued_at: relation.issued_at,
    }
}

/// The relation is pending and carries exactly the values of `key`.
pub open spec fn update_applies(relation: RelationView, key: UpdateKey) -> bool {
    relation.status is Pending && key_of(relation) == key
}

/// The relation once a conditional update for `key` has passed over it.
pub open spec fn marked_relation(relation: RelationView, key: UpdateKey) -> RelationView {
    if update_applies(relation, key) {
        RelationView { status: Status::Claimed, ..relation }
    } else {
        relation
    }
}

/// The ledger after a conditional update for `key`: every pending relation
/// with exactly those values is claimed, and nothing else changes.
pub open spec fn marked(ledger: Seq<RelationView>, key: UpdateKey) -> Seq<RelationView> {
    Seq::new(ledger.len(), |i: int| marked_relation(ledger[i], key))
}

/// Some relation of the ledger is pending with exactly the values of `key`.
pub open spec fn has_match(ledger: Seq<RelationView>, key: UpdateKey) -> bool {
    exists|i: int| 0 <= i < ledger.len() && update_applies(#[trigger] ledger[i], key)
}

/// The relations that a fetch returns: the pending ones, in ledger order.
pub open spec fn pending_of(ledger: Seq<RelationView>) -> Seq<RelationView> {
    ledger.filter(|r: RelationView| r.status is Pending)
}

/// The ledger after a pending relation with the values of `key` has been
/// merged in: unchanged where such a relation is there already, else longer
/// by that relation.
pub open spec fn recorded(ledger: Seq<RelationView>, key: UpdateKey) -> Seq<RelationView> {
    if has_match(ledger, key) {
        ledger
    } else {
        ledger.push(
            RelationView {
                from_bank: key.from_bank,
                to_bank: key.to_bank,
                amount: key.amount,
                issued_at: key.issued_at,
                status: Status::Pending,
            },
        )
    }
}

/// The ledger after one pending relation per obligation has been merged in,
/// each recorded at `issued_at`.
pub open spec fn persisted(
    ledger: Seq<RelationView>,
    obligations: Seq<NetObligationView>,
    issued_at: int,
) -> Seq<RelationView>
    decreases obligations.len(),
{
    if obligations.len() == 0 {
        ledger
    } else {
        recorded(
            persisted(ledger, obligations.drop_last(), issued_at),
            UpdateKey {
                from_bank: obligations.last().from,
                to_bank: obligations.last().to,
                amount: obligations.last().amount,
                issued_at,
            },
        )
    }
}

/// A ledger in memory.
#[derive(Debug, PartialEq, Eq)]
pub struct Ledger {
    pub relations: Vec<Relation>,
}

impl View for Ledger {
    type V = Seq<RelationView>;

    open spec fn view(&self) -> Seq<RelationView> {
        relations_view(self.relations@)
    }
}

/// Decides whether a conditional update with the given values applies to
/// `relation`.
fn applies_to(
    relation: &Relation,
    from_bank: &str,
    to_bank: &str,
    amount: u128,
    issued_at: i64,
) -> (r: bool)
    ensures
        r == update_applies(
            relation@,
            UpdateKey {
                from_bank: from_bank@,
                to_bank: to_bank@,
                amount: amount as nat,
                issued_at: issued_at as int,
            },
        ),
{
    match relation.status {
        Status::Claimed => false,
        Status::Pending => relation.amount == amount && relation.issued_at == issued_at
            && same_text(relation.from_bank.as_str(), from_bank) && same_text(
            relation.to_bank.as_str(),
            to_bank,
        ),
    }
}

impl Ledger {
    /// A ledger without relations.
    pub fn new() -> (ledger: Ledger)
        ensures
            ledger@ == Seq::<RelationView>::empty(),
    {
        let ledger = Ledger { relations: Vec::new() };
        assert(ledger@ =~= Seq::<RelationView>::empty());
        ledger
    }

    /// Merges a pending relation into the ledger. Where a pending relation
    /// with the same four values is there already, nothing changes.
    pub fn record(&mut self, from_bank: String, to_bank: String, amount: u128, issued_at: i64)
        ensures
            final(self)@ == recorded(
                old(self)@,
                UpdateKey {
                    from_bank: from_bank@,
                    to_bank: to_bank@,
                    amount: amount as nat,
                    issued_at: issued_at as int,
                },
            ),
    {
        let ghost key = UpdateKey {
            from_bank: from_bank@,
            to_bank: to_bank@,
            amount: amount as nat,
            issued_at: issued_at as int,
        };
        let mut i: usize = 0;
        while i < self.relations.len()
            invariant
                i <= self.relations.len(),
                self.relations == old(self).relations,
                key == (UpdateKey {
                    from_bank: from_bank@,
                    to_bank: to_bank@,
                    amount: amount as nat,
                    issued_at: issued_at as int,
                }),
                forall|j: int| 0 <= j < i ==> !update_applies(#[trigger] self@[j], key),
            decreases self.relations.len() - i,
        {
            if applies_to(
                &self.relations[i],
                from_bank.as_str(),
                to_bank.as_str(),
                amount,
                issued_at,
            ) {
                assert(update_applies(self@[i as int], key));
                return ;
            }
            i += 1;
        }
        self.relations.push(
            Relation { from_bank, to_bank, amount, issued_at, status: Status::Pending },
        );
        assert(final(self)@ =~= recorded(old(self)@, key));
    }

    /// Merges one pending relation per obligation into the ledger, each
    /// recorded at `issued_at`.
    pub fn persist(&mut self, obligations: &Vec<NetObligation>, issued_at: i64)
        ensures
            final(self)@ == persisted(
                old(self)@,
                obligations_view(obligations@),
                issued_at as int,
            ),
    {
        let ghost all = obligations_view(obligations@);
        let mut i: usize = 0;
        assert(all.take(0) =~= Seq::<NetObligationView>::empty());
        while i < obligations.len()
            invariant
                i <= obligations.len(),
                all == obligations_view(obligations@),
                self@ == persisted(old(self)@, all.take(i as int), issued_at as int),
            decreases obligations.len() - i,
        {
            proof {
                assert(all.take(i + 1).drop_last() =~= all.take(i as int));
                assert(all.take(i + 1).last() == obligations[i as int]@);
            }
            let obligation = &obligations[i];
            self.record(
                obligation.from.clone(),
                obligation.to.clone(),
                obligation.amount,
                issued_at,
            );
            i += 1;
        }
        assert(all.take(obligations.len() as int) =~= all);
    }

    /// The pending relations as rows, in ledger order.
    pub fn fetch_pending_rows(&self) -> (rows: Vec<LedgerRow>)
        ensures
            rows.len() == pending_of(self@).len(),
            forall|i: int|
                0 <= i < rows.len() ==> #[trigger] rows[i]@ == row_of(pending_of(self@)[i]),
    {
        let pending = self.fetch_pending();
        let mut rows: Vec<LedgerRow> = Vec::new();
        let mut i: usize = 0;
        while i < pending.len()
            invariant
                i <= pending.len(),
                rows.len() == i,
                forall|j: int|
                    0 <= j < i ==> #[trigger] rows[j]@ == row_of(relations_view(pending@)[j]),
            decreases pending.len() - i,
        {
            assert(relations_view(pending@)[i as int] == pending[i as int]@);
            rows.push(row_from_relation(&pending[i]));
            i += 1;
        }
        rows
    }

    /// The pending relations, in ledger order.
    pub fn fetch_pending(&self) -> (pending: Vec<Relation>)
        ensures
            relations_view(pending@) == pending_of(self@),
    {
        let ghost is_pending = |r: RelationView| r.status is Pending;
        let mut pending: Vec<Relation> = Vec::new();
        let mut i: usize = 0;
        proof {
            reveal(Seq::filter);
            assert(self@.take(0) =~= Seq::<RelationView>::empty());
            assert(relations_view(pending@) =~= self@.take(0).filter(is_pending));
        }
        while i < self.relations.len()
            invariant
                i <= self.relations.len(),
                is_pending == (|r: RelationView| r.status is Pending),
                relations_view(pending@) == self@.take(i as int).filter(is_pending),
            decreases self.relations.len() - i,
        {
            let ghost before = relations_view(pending@);
            proof {
                reveal(Seq::filter);
                assert(self@.take(i + 1).drop_last() =~= self@.take(i as int));
                assert(self@.take(i + 1).last() == self.relations[i as int]@);
            }
            match self.relations[i].status {
                Status::Pending => {
                    pending.push(self.relations[i].clone());
                    assert(relations_view(pending@) =~= before.push(self.relations[i as int]@));
                },
                Status::Claimed => {},
            }
            i += 1;
        }
        assert(self@.take(self.relations.len() as int) =~= self@);
        pending
    }

    /// The conditional update: claims every pending relation that carries
    /// exactly the four values given. Where none does, nothing changes.
    pub fn mark_claimed(&mut self, from_bank: &str, to_bank: &str, amount: u128, issued_at: i64)
        ensures
            final(self)@ == marked(
                old(self)@,
                UpdateKey {
                    from_bank: from_bank@,
                    to_bank: to_bank@,
                    amount: amount as nat,
                    issued_at: issued_at as int,
                },
            ),
    {
        let ghost key = UpdateKey {
            from_bank: from_bank@,
            to_bank: to_bank@,
            amount: amount as nat,
            issued_at: issued_at as int,
        };
        let mut i: usize = 0;
        while i < self.relations.len()
            invariant
                i <= self.relations.len(),
                self.relations.len() == old(self).relations.len(),
                key == (UpdateKey {
                    from_bank: from_bank@,
                    to_bank: to_bank@,
                    amount: amount as nat,
                    issued_at: issued_at as int,
                }),
                forall|j: int|
                    0 <= j < i ==> #[trigger] self@[j] == marked_relation(old(self)@[j], key),
                forall|j: int|
                    i <= j < self.relations.len() ==> #[trigger] self@[j] == old(self)@[j],
            decreases self.relations.len() - i,
        {
            let ghost before = self@;
            assert(before[i as int] == old(self)@[i as int]);
            if applies_to(&self.relations[i], from_bank, to_bank, amount, issued_at) {
                let mut claimed = self.relations[i].clone();
                claimed.status = Status::Claimed;
                self.relations.set(i, claimed);
            }
            assert(self@[i as int] == marked_relation(old(self)@[i as int], key));
            assert forall|j: int| 0 <= j < i implies #[trigger] self@[j] == marked_relation(
                old(self)@[j],
                key,
            ) by {
                assert(self@[j] == before[j]);
            }
            assert forall|j: int| i < j < self.relations.len() implies #[trigger] self@[j] == old(
                self,
            )@[j] by {
                assert(self@[j] == before[j]);
            }
            i += 1;
        }
        assert(final(self)@ =~= marked(old(self)@, key));
    }
}

/// An update that matches no relation changes nothing.
pub proof fn lemma_mark_without_match(ledger: Seq<RelationView>, key: UpdateKey)
    requires
        !has_match(ledger, key),
    ensures
        marked(ledger, key) == ledger,
{
    assert(marked(ledger, key) =~= ledger);
}

/// Once an update has passed, no relation matches it any more.
pub proof fn lemma_mark_leaves_no_match(ledger: Seq<RelationView>, key: UpdateKey)
    ensures
        !has_match(marked(ledger, key), key),
{
}

/// An update repeated changes nothing further.
pub proof fn lemma_mark_idempotent(ledger: Seq<RelationView>, key: UpdateKey)
    ensures
        marked(marked(ledger, key), key) == marked(ledger, key),
{
    assert(marked(marked(ledger, key), key) =~= marked(ledger, key));
}

/// An update changes the status of relations and nothing else: the ledger
/// keeps its length, each relation keeps its four values, and no claimed
/// relation becomes pending again.
pub proof fn lemma_mark_changes_status_only(ledger: Seq<RelationView>, key: UpdateKey)
    ensures
        marked(ledger, key).len() == ledger.len(),
        forall|i: int|
            0 <= i < ledger.len() ==> key_of(#[trigger] marked(ledger, key)[i]) == key_of(
                ledger[i],
            ),
        forall|i: int|
            0 <= i < ledger.len() && ledger[i].status is Claimed ==> #[trigger] marked(
                ledger,
                key,
            )[i] == ledger[i],
{
}

/// Updates for different relations do not disturb each other: they may pass
/// in either order.
pub proof fn lemma_marks_commute(ledger: Seq<RelationView>, a: UpdateKey, b: UpdateKey)
    ensures
        marked(marked(ledger, a), b) == marked(marked(ledger, b), a),
{
    assert(marked(marked(ledger, a), b) =~= marked(marked(ledger, b), a));
}

/// An update named after a pending relation claims that relation.
pub proof fn lemma_mark_claims_the_named_relation(ledger: Seq<RelationView>, i: int)
    requires
        0 <= i < ledger.len(),
        ledger[i].status is Pending,
    ensures
        marked(ledger, key_of(ledger[i]))[i] == (RelationView {
            status: Status::Claimed,
            ..ledger[i]
        }),
        !pending_of(marked(ledger, key_of(ledger[i]))).contains(ledger[i]),
{
    let after = marked(ledger, key_of(ledger[i]));
    let is_pending = |r: RelationView| r.status is Pending;
    if pending_of(after).contains(ledger[i]) {
        after.lemma_filter_contains_rev(is_pending, ledger[i]);
        let j = choose|j: int| 0 <= j < after.len() && after[j] == ledger[i];
        assert(after[j] == marked_relation(ledger[j], key_of(ledger[i])));
    }
}

} // verus!
