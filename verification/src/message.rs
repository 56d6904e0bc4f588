//! The messages of the claim/acknowledgment handshake.

use vstd::prelude::*;
use crate::text::same_text;
use crate::transaction::{chains_view, Transaction, TransactionView};

verus! {

/// Mathematical content of a [`ClaimRequest`].
pub struct ClaimRequestView {
    pub did: Seq<char>,
    pub bank_did: Seq<char>,
    pub amount: nat,
    pub chained_transactions: Seq<Seq<TransactionView>>,
    pub clearance: Option<bool>,
}

/// A claim of `amount` that `did` raises against `bank_did`, with the chains
/// that evidence it.
#[derive(Debug, PartialEq, Eq)]
pub struct ClaimRequest {
    pub did: String,
    pub bank_did: String,
    pub amount: u128,
    pub chained_transactions: Vec<Vec<Transaction>>,
    pub clearance: Option<bool>,
}

impl View for ClaimRequest {
    type V = ClaimRequestView;

    open spec fn view(&self) -> ClaimRequestView {
        ClaimRequestView {
            did: self.did@,
            bank_did: self.bank_did@,
            amount: self.amount as nat,
            chained_transactions: chains_view(self.chained_transactions@),
            clearance: self.clearance,
        }
    }
}

/// Copies a chain link by link.
fn clone_chain(chain: &Vec<Transaction>) -> (res: Vec<Transaction>)
    ensures
        res@ == chain@,
{
    chain.clone()
}

/// Copies a bundle of chains.
fn clone_chains(chains: &Vec<Vec<Transaction>>) -> (res: Vec<Vec<Transaction>>)
    ensures
        chains_view(res@) == chains_view(chains@),
{
    let mut res: Vec<Vec<Transaction>> = Vec::new();
    let mut i: usize = 0;
    while i < chains.len()
        invariant
            i <= chains.len(),
            res.len() == i,
            forall|j: int| 0 <= j < i ==> res[j]@ == chains[j]@,
        decreases chains.len() - i,
    {
        res.push(clone_chain(&chains[i]));
        i += 1;
    }
    assert(chains_view(res@) =~= chains_view(chains@));
    res
}

impl Clone for ClaimRequest {
    fn clone(&self) -> (res: Self)
        ensures
            res@ == self@,
    {
        ClaimRequest {
            did: self.did.clone(),
            bank_did: self.bank_did.clone(),
            amount: self.amount,
            chained_transactions: clone_chains(&self.chained_transactions),
            clearance: self.clearance,
        }
    }
}

/// Mathematical content of a [`ClaimResponse`].
pub struct ClaimResponseView {
    pub success: bool,
    pub ack_id: Seq<char>,
    pub transaction: Option<TransactionView>,
}

/// The counterparty's answer to a claim. On success `ack_id` correlates the
/// acknowledgment that follows.
#[derive(Debug, PartialEq, Eq)]
pub struct ClaimResponse {
    pub success: bool,
    pub ack_id: String,
    pub transaction: Option<Transaction>,
}

impl View for ClaimResponse {
    type V = ClaimResponseView;

    open spec fn view(&self) -> ClaimResponseView {
        ClaimResponseView {
            success: self.success,
            ack_id: self.ack_id@,
            transaction: match self.transaction {
                Some(t) => Some(t@),
                None => None,
            },
        }
    }
}

/// Mathematical content of an [`AckResponse`].
pub struct AckResponseView {
    pub success: bool,
    pub message: Seq<char>,
}

/// The counterparty's answer to an acknowledgment.
#[derive(Debug, PartialEq, Eq)]
pub struct AckResponse {
    pub success: bool,
    pub message: String,
}

impl View for AckResponse {
    type V = AckResponseView;

    open spec fn view(&self) -> AckResponseView {
        AckResponseView { success: self.success, message: self.message@ }
    }
}

/// Mathematical content of an [`Outgoing`] message.
pub enum OutgoingView {
    Claim(ClaimRequestView),
    Ack { ack_id: Seq<char> },
}

/// What this side sends: a closed set of variants, each with its tag.
#[derive(Debug, PartialEq, Eq)]
pub enum Outgoing {
    Claim(ClaimRequest),
    Ack { ack_id: String },
}

impl View for Outgoing {
    type V = OutgoingView;

    open spec fn view(&self) -> OutgoingView {
        match self {
            Outgoing::Claim(request) => OutgoingView::Claim(request@),
            Outgoing::Ack { ack_id } => OutgoingView::Ack { ack_id: ack_id@ },
        }
    }
}

/// Mathematical content of an [`Incoming`] frame.
pub enum IncomingView {
    Claim(ClaimResponseView),
    Ack(AckResponseView),
    Undecodable,
}

/// What this side receives: a decoded response, or a frame that no response
/// could be read from.
#[derive(Debug, PartialEq, Eq)]
pub enum Incoming {
    Claim(ClaimResponse),
    Ack(AckResponse),
    Undecodable,
}

impl View for Incoming {
    type V = IncomingView;

    open spec fn view(&self) -> IncomingView {
        match self {
            Incoming::Claim(response) => IncomingView::Claim(response@),
            Incoming::Ack(response) => IncomingView::Ack(response@),
            Incoming::Undecodable => IncomingView::Undecodable,
        }
    }
}

/// The kinds of message an envelope can carry.
#[derive(Clone, Copy, Debug, PartialEq, Eq, Structural)]
pub enum MessageKind {
    Claim,
    Ack,
}

/// The tag that marks an envelope of the given kind.
pub open spec fn tag_of(kind: MessageKind) -> Seq<char> {
    match kind {
        MessageKind::Claim => "claim"@,
        MessageKind::Ack => "ack"@,
    }
}

/// The kind of an outgoing message.
pub open spec fn kind_of(message: OutgoingView) -> MessageKind {
    match message {
        OutgoingView::Claim(_) => MessageKind::Claim,
        OutgoingView::Ack { .. } => MessageKind::Ack,
    }
}

impl MessageKind {
    /// The tag written into an envelope of this kind.
    pub fn tag(self) -> (tag: &'static str)
        ensures
            tag@ == tag_of(self),
    {
        match self {
            MessageKind::Claim => "claim",
            MessageKind::Ack => "ack",
        }
    }

    /// Reads a tag back into a kind. A tag that marks no kind is refused.
    pub fn from_tag(tag: &str) -> (kind: Option<MessageKind>)
        ensures
            forall|k: MessageKind| kind == Some(k) <==> tag@ == tag_of(k),
            kind is None <==> tag@ != tag_of(MessageKind::Claim) && tag@ != tag_of(
                MessageKind::Ack,
            ),
    {
        proof {
            lemma_tags_distinct();
        }
        if same_text(tag, "claim") {
            Some(MessageKind::Claim)
        } else if same_text(tag, "ack") {
            Some(MessageKind::Ack)
        } else {
            None
        }
    }
}

impl Outgoing {
    /// The kind of this message.
    pub fn kind(&self) -> (kind: MessageKind)
        ensures
            kind == kind_of(self@),
    {
        match self {
            Outgoing::Claim(_) => MessageKind::Claim,
            Outgoing::Ack { .. } => MessageKind::Ack,
        }
    }
}

/// The two tags differ, so a tag names at most one kind.
pub proof fn lemma_tags_distinct()
    ensures
        tag_of(MessageKind::Claim) != tag_of(MessageKind::Ack),
{
    reveal_strlit("claim");
    reveal_strlit("ack");
    assert("claim"@.len() == 5);
    assert("ack"@.len() == 3);
}

} // verus!
