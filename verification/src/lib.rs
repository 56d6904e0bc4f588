//! Netting and settlement of interbank obligations.
//!
//! Transaction chains are reduced to directed observations, observations are
//! netted into obligations per ordered pair of banks, and each pending
//! obligation is settled through a claim/acknowledgment handshake. The
//! decisions of a clearance run and of each handshake are taken by state
//! machines that do no outside work themselves: they name the work to be
//! done and are told how it ended.

pub mod amount;
pub mod text;
pub mod transaction;
pub mod aggregate;
pub mod message;
pub mod ledger;
pub mod netting;
pub mod netting_laws;
pub mod protocol;
pub mod protocol_laws;
pub mod config;
pub mod clock;
pub mod orchestrator;
pub mod orchestrator_laws;

pub use crate::aggregate::{
    aggregate_chain, aggregate_checked, observe_chains, ChainCheck, ChainError,
    DirectedObservation,
};
pub use crate::amount::{format_amount, parse_amount};
pub use crate::config::{ClearanceConfig, ConfigError};
pub use crate::ledger::{
    relation_from_row, row_from_relation, Ledger, LedgerRow, Relation, RowError, Status,
};
pub use crate::message::{
    AckResponse, ClaimRequest, ClaimResponse, Incoming, MessageKind, Outgoing,
};
pub use crate::netting::{
    net_observations, net_with, offset_opposing, pairs_are_distinct, NetObligation, NettingError,
    NettingStrategy,
};
pub use crate::orchestrator::{
    check_thresholds, claim_for_relation, relations_from_rows, total_amount, ClearanceOrchestrator,
    RunAction, RunEnd, RunEvent, RunPhase, RunSummary, Settlement,
};
pub use crate::protocol::{
    Action, Event, Failure, Fault, Link, Outcome, Phase, SettlementProtocolClient,
};
pub use crate::transaction::{is_hash_linked, Transaction};
