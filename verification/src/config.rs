//! Settings that the library reads.

use crate::table::Table;
use vstd::prelude::*;

verus! {

/// The limits of one provider. Prices and cost budgets are kept elsewhere; here
/// it only counts whether there is a budget.
#[derive(Debug, Clone, Copy, PartialEq, Eq, Structural)]
pub struct ProviderLimit {
    pub concurrent: Option<u32>,
    pub rpm: Option<u32>,
    pub circuit_failure_threshold: Option<u32>,
    pub circuit_cooldown_seconds: Option<u64>,
    pub has_cost_budget: bool,
}

impl Default for ProviderLimit {
    fn default() -> (r: ProviderLimit)
        ensures
            r == ProviderLimit::none(),
    {
        ProviderLimit {
            concurrent: None,
            rpm: None,
            circuit_failure_threshold: None,
            circuit_cooldown_seconds: None,
            has_cost_budget: false,
        }
    }
}

impl ProviderLimit {
    /// No limit of its own.
    pub open spec fn none() -> ProviderLimit {
        ProviderLimit {
            concurrent: None,
            rpm: None,
            circuit_failure_threshold: None,
            circuit_cooldown_seconds: None,
            has_cost_budget: false,
        }
    }
}

pub struct Limits {
    pub global_concurrent: u32,
    pub daily_token_budget: Option<u64>,
    pub providers: Table<ProviderLimit>,
}

/// Which model serves a role.
#[derive(Debug)]
pub struct RoleBinding {
    pub provider: String,
    pub model: String,
    pub account: Option<String>,
    pub fallback: Option<String>,
}

/// A provider that the user defined.
#[derive(Debug)]
pub struct CustomProviderDef {
    pub base_url: String,
    pub protocol: String,
    pub models: Vec<String>,
    pub capabilities: Vec<String>,
}

pub struct Config {
    pub limits: Limits,
    pub roles: Table<RoleBinding>,
    pub custom_providers: Table<CustomProviderDef>,
}

impl Config {
    pub fn new() -> (r: Config)
        ensures
            r.limits.global_concurrent == 0,
            r.limits.daily_token_budget is None,
            r.limits.providers@ == Map::<Seq<char>, ProviderLimit>::empty(),
            r.roles@ == Map::<Seq<char>, RoleBinding>::empty(),
            r.custom_providers@ == Map::<Seq<char>, CustomProviderDef>::empty(),
    {
        Config {
            limits: Limits {
                global_concurrent: 0,
                daily_token_budget: None,
                providers: Table::new(),
            },
            roles: Table::new(),
            custom_providers: Table::new(),
        }
    }

    /// The provider's limits; none where the settings do not name it.
    pub open spec fn limit(self, provider: Seq<char>) -> ProviderLimit {
        if self.limits.providers@.contains_key(provider) {
            self.limits.providers@[provider]
        } else {
            ProviderLimit::none()
        }
    }

    pub fn limit_of(&self, provider: &str) -> (r: ProviderLimit)
        ensures
            r == self.limit(provider@),
    {
        match self.limits.providers.get(provider) {
            Some(limit) => *limit,
            None => ProviderLimit::default(),
        }
    }
}

impl ProviderLimit {
    /// How many failures in a row open the circuit; zero keeps it closed.
    pub open spec fn threshold(self) -> u32 {
        match self.circuit_failure_threshold {
            Some(n) => n,
            None => 3,
        }
    }

    /// How long an open circuit refuses, in seconds.
    pub open spec fn cooldown(self) -> u64 {
        match self.circuit_cooldown_seconds {
            Some(n) => n,
            None => 60,
        }
    }

    pub fn failure_threshold(&self) -> (r: u32)
        ensures
            r == self.threshold(),
    {
        match self.circuit_failure_threshold {
            Some(n) => n,
            None => 3,
        }
    }

    pub fn cooldown_seconds(&self) -> (r: u64)
        ensures
            r == self.cooldown(),
    {
        match self.circuit_cooldown_seconds {
            Some(n) => n,
            None => 60,
        }
    }
}

/// A provider's own limits apply to it; one that is not configured has none, and its
/// circuit opens after three failures for a minute.
pub proof fn law_own_limits_apply(config: Config, provider: Seq<char>)
    ensures
        config.limits.providers@.contains_key(provider) ==> config.limit(provider)
            == config.limits.providers@[provider],
        !config.limits.providers@.contains_key(provider) ==> {
            let limit = config.limit(provider);
            &&& limit.concurrent is None && limit.rpm is None && !limit.has_cost_budget
            &&& limit.threshold() == 3 && limit.cooldown() == 60
        },
{
}

/// What is set for the circuit is used, and only without it the default.
pub proof fn law_circuit_settings_are_used(limit: ProviderLimit)
    ensures
        limit.circuit_failure_threshold matches Some(n) ==> limit.threshold() == n,
        limit.circuit_cooldown_seconds matches Some(n) ==> limit.cooldown() == n,
        limit.circuit_failure_threshold is None ==> limit.threshold() == 3,
        limit.circuit_cooldown_seconds is None ==> limit.cooldown() == 60,
{
}

} // verus!
