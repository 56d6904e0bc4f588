//! The configuration of a clearance run.

use vstd::prelude::*;

verus! {

/// Whether the `url` crate reads `text` as an absolute URL.
pub uninterp spec fn is_absolute_url(text: Seq<char>) -> bool;

/// Asks `url::Url::parse` whether it reads `text` as an absolute URL.
///
/// The answer depends on the text alone. What the parser accepts is not
/// restated here: the contract only gives the answer its name.
#[verifier::external_body]
fn parses_as_url(text: &str) -> (ok: bool)
    ensures
        ok == is_absolute_url(text@),
{
    url::Url::parse(text).is_ok()
}

/// Mathematical content of a [`ClearanceConfig`].
pub struct ConfigView {
    pub endpoint: Seq<char>,
    pub min_threshold: nat,
    pub max_threshold: Option<nat>,
    pub timeout_ms: nat,
    pub claim_validity_days: int,
}

/// What one clearance run is given to work with.
#[derive(Debug, PartialEq, Eq)]
pub struct ClearanceConfig {
    /// Where the counterparty listens for claims.
    pub endpoint: String,
    /// The least run-wide total for which anything is settled.
    pub min_threshold: u128,
    /// The greatest run-wide total for which anything is settled, if there
    /// is one.
    pub max_threshold: Option<u128>,
    /// The bound on each piece of transport work, in milliseconds.
    pub timeout_ms: u64,
    /// For how many days from its making a claim's evidence stays valid.
    pub claim_validity_days: i64,
}

impl View for ClearanceConfig {
    type V = ConfigView;

    open spec fn view(&self) -> ConfigView {
        ConfigView {
            endpoint: self.endpoint@,
            min_threshold: self.min_threshold as nat,
            max_threshold: match self.max_threshold {
                Some(m) => Some(m as nat),
                None => None,
            },
            timeout_ms: self.timeout_ms as nat,
            claim_validity_days: self.claim_validity_days as int,
        }
    }
}

impl Clone for ClearanceConfig {
    fn clone(&self) -> (res: Self)
        ensures
            res == *self,
    {
        ClearanceConfig {
            endpoint: self.endpoint.clone(),
            min_threshold: self.min_threshold,
            max_threshold: self.max_threshold,
            timeout_ms: self.timeout_ms,
            claim_validity_days: self.claim_validity_days,
        }
    }
}

/// Why a configuration is refused.
#[derive(Clone, Copy, Debug, PartialEq, Eq, Structural)]
pub enum ConfigError {
    /// The endpoint is no absolute URL.
    InvalidEndpoint,
    /// The ceiling lies below the floor, so that no total could pass.
    CeilingBelowFloor,
}

/// What the check of a configuration finds, given whether its endpoint is an
/// absolute URL.
pub open spec fn config_fault(
    endpoint_is_url: bool,
    min_threshold: u128,
    max_threshold: Option<u128>,
) -> Option<ConfigError> {
    if !endpoint_is_url {
        Some(ConfigError::InvalidEndpoint)
    } else if max_threshold matches Some(ceiling) && ceiling < min_threshold {
        Some(ConfigError::CeilingBelowFloor)
    } else {
        None
    }
}

impl ClearanceConfig {
    /// Builds a configuration from values of which it is known whether the
    /// endpoint is an absolute URL.
    pub fn checked(
        endpoint: String,
        endpoint_is_url: bool,
        min_threshold: u128,
        max_threshold: Option<u128>,
        timeout_ms: u64,
        claim_validity_days: i64,
    ) -> (res: Result<ClearanceConfig, ConfigError>)
        ensures
            match config_fault(endpoint_is_url, min_threshold, max_threshold) {
                Some(fault) => res == Err::<ClearanceConfig, ConfigError>(fault),
                None => res is Ok && res->Ok_0@ == (ConfigView {
                    endpoint: endpoint@,
                    min_threshold: min_threshold as nat,
                    max_threshold: match max_threshold {
                        Some(m) => Some(m as nat),
                        None => None,
                    },
                    timeout_ms: timeout_ms as nat,
                    claim_validity_days: claim_validity_days as int,
                }),
            },
    {
        if !endpoint_is_url {
            return Err(ConfigError::InvalidEndpoint);
        }
        match max_threshold {
            Some(ceiling) => {
                if ceiling < min_threshold {
                    return Err(ConfigError::CeilingBelowFloor);
                }
            },
            None => {},
        }
        Ok(
            ClearanceConfig {
                endpoint,
                min_threshold,
                max_threshold,
                timeout_ms,
                claim_validity_days,
            },
        )
    }

    /// Builds a configuration. It is refused where the endpoint is no
    /// absolute URL, and where a ceiling is given that lies below the floor.
    pub fn new(
        endpoint: String,
        min_threshold: u128,
        max_threshold: Option<u128>,
        timeout_ms: u64,
        claim_validity_days: i64,
    ) -> (res: Result<ClearanceConfig, ConfigError>)
        ensures
            match config_fault(is_absolute_url(endpoint@), min_threshold, max_threshold) {
                Some(fault) => res == Err::<ClearanceConfig, ConfigError>(fault),
                None => res is Ok && res->Ok_0@ == (ConfigView {
                    endpoint: endpoint@,
                    min_threshold: min_threshold as nat,
                    max_threshold: match max_threshold {
                        Some(m) => Some(m as nat),
                        None => None,
                    },
                    timeout_ms: timeout_ms as nat,
                    claim_validity_days: claim_validity_days as int,
                }),
            },
    {
        let endpoint_is_url = parses_as_url(endpoint.as_str());
        ClearanceConfig::checked(
            endpoint,
            endpoint_is_url,
            min_threshold,
            max_threshold,
            timeout_ms,
            claim_validity_days,
        )
    }
}

} // verus!
