//! The manager of model resources: one set of settings over a state that all
//! managers of the process share.

use crate::auth::{account_id, account_key};
use crate::config::{Config, CustomProviderDef, RoleBinding};
use crate::llm::circuit::Verdict;
use crate::llm::mrm::rpm::{limit_at, rpm_limit, RpmReservation, RpmView, RpmWindows};
use crate::llm::mrm::state::{freed, slots, used, PoolPermit, Pools};
use crate::llm::mrm_health::{
    budget_refusal, claim_effect, claim_result, key_of, lease_parts, reconfigured, result_key,
    verdict_text, AdmissionLease, Health, HealthView, KeyView, Today,
};
use crate::llm::retry::opt_str;
use crate::text::{cat2, cat5, decimal, decimal_of, join, joined, law_what_was_put_on_is_taken_off, opt_clone, opt_view, starts, strip_prefix, views};
use vstd::prelude::*;

verus! {

/// The pool that every call takes a slot of.
pub const GLOBAL_POOL_KEY: &'static str = "global";

/// What outlives a change of settings: slots in use, windows, history and
/// health.
pub struct Shared {
    pub pools: Pools,
    pub rpm: RpmWindows,
    pub history: Vec<DispatchRecord>,
    pub health: Health,
}

/// One dispatch of a role, for the record.
#[derive(Debug)]
pub struct DispatchRecord {
    pub role: String,
    pub provider: String,
    pub model: String,
    pub account: Option<String>,
    pub degraded_from: Option<String>,
    pub at: u64,
}

#[verifier::ext_equal]
pub struct RecordView {
    pub role: Seq<char>,
    pub provider: Seq<char>,
    pub model: Seq<char>,
    pub account: Option<Seq<char>>,
    pub degraded_from: Option<Seq<char>>,
    pub at: u64,
}

impl View for DispatchRecord {
    type V = RecordView;

    open spec fn view(&self) -> RecordView {
        RecordView {
            role: self.role@,
            provider: self.provider@,
            model: self.model@,
            account: opt_view(self.account),
            degraded_from: opt_view(self.degraded_from),
            at: self.at,
        }
    }
}

impl DispatchRecord {
    pub fn copy(&self) -> (r: DispatchRecord)
        ensures
            r@ == self@,
    {
        DispatchRecord {
            role: self.role.clone(),
            provider: self.provider.clone(),
            model: self.model.clone(),
            account: opt_clone(&self.account),
            degraded_from: opt_clone(&self.degraded_from),
            at: self.at,
        }
    }
}

pub open spec fn record_views(list: Seq<DispatchRecord>) -> Seq<RecordView> {
    list.map_values(|d: DispatchRecord| d@)
}

impl Shared {
    pub fn new() -> (r: Shared)
        ensures
            r.pools@ == Map::<Seq<char>, usize>::empty(),
            r.rpm@ == (RpmView { windows: Map::empty(), sequence: 0 }),
            r.history@.len() == 0,
            r.health@ == (HealthView { circuits: Map::empty(), probe_sequence: 0 }),
    {
        Shared {
            pools: Pools::new(),
            rpm: RpmWindows::new(),
            history: Vec::new(),
            health: Health::new(),
        }
    }
}

/// The slots of a running call, and its lease of the circuit.
#[derive(Debug)]
pub struct Slot {
    pub permit_global: PoolPermit,
    pub permit_provider: PoolPermit,
    pub circuit_lease: Option<AdmissionLease>,
}

/// A call that may start: it has its slots, and its place in the window is held.
#[derive(Debug)]
pub struct CallPermit {
    pub slot: Slot,
    pub rpm: RpmReservation,
}

impl CallPermit {
    /// The call starts: its place in the window is used up.
    pub fn start(self) -> (r: Slot)
        ensures
            r == self.slot,
    {
        self.slot
    }
}

#[derive(Debug, Clone, Copy, PartialEq, Eq, Structural)]
pub enum CallOutcome {
    Success,
    Failure,
    /// Nobody watched the call to its end; it says nothing of the provider.
    Neutral,
}

/// What became of a call that has its slots and wants to start.
#[derive(Debug)]
pub enum StartStep {
    Granted(CallPermit),
    /// The window filled up meanwhile; the slots went back.
    Retry,
    Refused(String),
}

pub struct ModelResourceManager {
    pub config: Config,
    pub circuit_scope: String,
}

pub open spec fn pool_key(provider: Seq<char>) -> Seq<char> {
    "provider:"@ + provider
}

/// What a role is bound to.
pub open spec fn bound_in(config: Config, role: Seq<char>) -> Option<RoleBinding> {
    if config.roles@.contains_key(role) {
        Some(config.roles@[role])
    } else {
        None
    }
}

/// The definition of a provider of one's own.
pub open spec fn defined_in(config: Config, name: Seq<char>) -> Option<CustomProviderDef> {
    if config.custom_providers@.contains_key(name) {
        Some(config.custom_providers@[name])
    } else {
        None
    }
}

pub fn provider_pool_key(provider: &str) -> (r: String)
    ensures
        r@ == pool_key(provider@),
{
    cat2("provider:", provider)
}

/// The slots that a call's permits stand for are given back.
pub open spec fn pools_without(pools: Map<Seq<char>, usize>, slot: Slot) -> Map<Seq<char>, usize> {
    freed(freed(pools, slot.permit_global@), slot.permit_provider@)
}

/// The circuits once a lease is given up.
pub open spec fn lease_released(health: HealthView, lease: Option<AdmissionLease>) -> HealthView {
    match lease {
        Some(l) => match l.probe_id {
            Some(id) if health.circuits.contains_key(l.key@) => health.with(
                l.key@,
                health.circuits[l.key@].released(l.generation, id),
            ),
            _ => health,
        },
        None => health,
    }
}

/// A window without a reservation that was not used.
pub open spec fn reservation_cancelled(rpm: RpmView, reservation: RpmReservation) -> RpmView {
    match reservation.key {
        Some(key) => rpm.cancelled(key@, reservation.id),
        None => rpm,
    }
}

/// Ends a call: its slots go back, and a probe that was not settled is given
/// up.
pub fn release_slot(shared: &mut Shared, slot: Slot)
    ensures
        final(shared).pools@ == pools_without(old(shared).pools@, slot),
        final(shared).health@ == lease_released(old(shared).health@, slot.circuit_lease),
        final(shared).rpm@ == old(shared).rpm@,
        final(shared).history == old(shared).history,
{
    if let Some(lease) = &slot.circuit_lease {
        shared.health.release_probe(lease);
    }
    shared.pools.release(slot.permit_global);
    shared.pools.release(slot.permit_provider);
}

/// Gives up a call that was granted and never started.
pub fn abandon(shared: &mut Shared, permit: CallPermit)
    ensures
        final(shared).pools@ == pools_without(old(shared).pools@, permit.slot),
        final(shared).health@ == lease_released(old(shared).health@, permit.slot.circuit_lease),
        final(shared).rpm@ == reservation_cancelled(old(shared).rpm@, permit.rpm),
        final(shared).history == old(shared).history,
{
    shared.rpm.cancel(permit.rpm);
    release_slot(shared, permit.slot);
}

impl ModelResourceManager {
    pub fn new(config: Config) -> (r: ModelResourceManager)
        ensures
            r.config == config,
            r.circuit_scope@ == "process"@,
    {
        ModelResourceManager { config, circuit_scope: "process".to_owned() }
    }

    /// New settings over the same state. All handles of a manager lead to this
    /// one value, so each of them sees the settings from here on; slots in use,
    /// windows, history and circuits are kept.
    pub fn reconfigured(&mut self, shared: &mut Shared, config: Config, now: u64)
        ensures
            final(self).config == config,
            forall|name: Seq<char>| #[trigger] final(self).bound(name) == bound_in(config, name),
            forall|name: Seq<char>| #[trigger]
                final(self).defined(name) == defined_in(config, name),
            final(self).circuit_scope == old(self).circuit_scope,
            final(shared).health@ == reconfigured(
                old(shared).health@,
                old(self).circuit_scope@,
                config,
                now,
            ),
            final(shared).pools@ == old(shared).pools@,
            final(shared).rpm@ == old(shared).rpm@,
            final(shared).history == old(shared).history,
    {
        self.config = config;
        self.activate(shared, now);
    }

    /// A workspace's view: settings and circuits of its own, slots and windows
    /// shared.
    pub fn scoped(&self, shared: &mut Shared, scope: &str, config: Config, now: u64) -> (r:
        ModelResourceManager)
        ensures
            r.config == config,
            r.circuit_scope@ == scope@,
            final(shared).health@ == reconfigured(old(shared).health@, scope@, config, now),
            final(shared).pools@ == old(shared).pools@,
            final(shared).rpm@ == old(shared).rpm@,
            final(shared).history == old(shared).history,
    {
        let next = ModelResourceManager { config, circuit_scope: scope.to_owned() };
        next.activate(shared, now);
        next
    }

    /// A manager with other settings that has no effect until it is activated.
    pub fn candidate(&self, config: Config) -> (r: ModelResourceManager)
        ensures
            r.config == config,
            r.circuit_scope == self.circuit_scope,
    {
        ModelResourceManager { config, circuit_scope: self.circuit_scope.clone() }
    }

    pub fn activate(&self, shared: &mut Shared, now: u64)
        ensures
            final(shared).health@ == reconfigured(
                old(shared).health@,
                self.circuit_scope@,
                self.config,
                now,
            ),
            final(shared).pools@ == old(shared).pools@,
            final(shared).rpm@ == old(shared).rpm@,
            final(shared).history == old(shared).history,
    {
        shared.health.reconfigure(self.circuit_scope.as_str(), &self.config, now);
    }

    pub fn custom_provider(&self, name: &str) -> (r: Option<&CustomProviderDef>)
        ensures
            (match r {
                Some(definition) => Some(*definition),
                None => None,
            }) == self.defined(name@),
    {
        self.config.custom_providers.get(name)
    }

    pub fn role(&self, role: &str) -> (r: Option<&RoleBinding>)
        ensures
            (match r {
                Some(binding) => Some(*binding),
                None => None,
            }) == self.bound(role@),
    {
        self.config.roles.get(role)
    }

    pub open spec fn bound(self, role: Seq<char>) -> Option<RoleBinding> {
        bound_in(self.config, role)
    }

    pub open spec fn defined(self, name: Seq<char>) -> Option<CustomProviderDef> {
        defined_in(self.config, name)
    }

    /// Why a call is not admitted, if it is not.
    pub open spec fn refusal(self, health: HealthView, provider: Seq<char>, today: Today, now: u64) -> Option<Seq<char>> {
        match budget_refusal(provider, self.config, today) {
            Some(reason) => Some(reason),
            None => {
                let limit = self.config.limit(provider);
                let circuit = health.at(key_of(self.circuit_scope@, provider, self.config));
                verdict_text(provider, circuit.verdict(limit.threshold(), limit.cooldown(), now))
            },
        }
    }

    pub fn admission(&self, shared: &Shared, provider: &str, today: &Today, now: u64) -> (r: Result<
        (),
        String,
    >)
        ensures
            match self.refusal(shared.health@, provider@, *today, now) {
                None => r is Ok,
                Some(reason) => r matches Err(e) && e@ == reason,
            },
    {
        shared.health.eligible(self.circuit_scope.as_str(), provider, &self.config, today, now)
    }

    /// The circuits after a result.
    pub open spec fn settled(
        self,
        health: HealthView,
        provider: Seq<char>,
        success: bool,
        lease: Option<&AdmissionLease>,
        enforce: bool,
        now: u64,
    ) -> HealthView {
        let limit = self.config.limit(provider);
        let key = result_key(self.circuit_scope@, provider, lease, self.config);
        if limit.threshold() == 0 {
            health
        } else {
            health.with(
                key,
                health.at(key).recorded(
                    success,
                    lease_parts(lease),
                    enforce,
                    limit.threshold(),
                    limit.cooldown(),
                    now,
                ),
            )
        }
    }

    /// Takes a result that came without a call of this manager.
    pub fn record_result(&self, shared: &mut Shared, provider: &str, success: bool, now: u64)
        ensures
            final(shared).health@ == self.settled(
                old(shared).health@,
                provider@,
                success,
                None,
                false,
                now,
            ),
            final(shared).pools@ == old(shared).pools@,
            final(shared).rpm@ == old(shared).rpm@,
            final(shared).history == old(shared).history,
    {
        shared.health.record_result(
            self.circuit_scope.as_str(),
            provider,
            success,
            None,
            false,
            &self.config,
            now,
        );
    }

    pub open spec fn lease_of(slot: Option<&Slot>) -> Option<&AdmissionLease> {
        match slot {
            Some(s) => match s.circuit_lease {
                Some(l) => Some(&l),
                None => None,
            },
            None => None,
        }
    }

    /// Takes the result of a call: it counts only with a lease of the circuit's
    /// present generation.
    pub fn record_call_result(
        &self,
        shared: &mut Shared,
        provider: &str,
        slot: Option<&Slot>,
        success: bool,
        now: u64,
    )
        ensures
            final(shared).health@ == self.settled(
                old(shared).health@,
                provider@,
                success,
                Self::lease_of(slot),
                true,
                now,
            ),
            final(shared).pools@ == old(shared).pools@,
            final(shared).rpm@ == old(shared).rpm@,
            final(shared).history == old(shared).history,
    {
        let lease = match slot {
            Some(s) => s.circuit_lease.as_ref(),
            None => None,
        };
        shared.health.record_result(
            self.circuit_scope.as_str(),
            provider,
            success,
            lease,
            true,
            &self.config,
            now,
        );
    }

    pub fn record_call_outcome(
        &self,
        shared: &mut Shared,
        provider: &str,
        slot: Option<&Slot>,
        outcome: CallOutcome,
        now: u64,
    )
        ensures
            final(shared).health@ == (match outcome {
                CallOutcome::Success => self.settled(
                    old(shared).health@,
                    provider@,
                    true,
                    Self::lease_of(slot),
                    true,
                    now,
                ),
                CallOutcome::Failure => self.settled(
                    old(shared).health@,
                    provider@,
                    false,
                    Self::lease_of(slot),
                    true,
                    now,
                ),
                CallOutcome::Neutral => old(shared).health@,
            }),
            final(shared).pools@ == old(shared).pools@,
            final(shared).rpm@ == old(shared).rpm@,
            final(shared).history == old(shared).history,
    {
        match outcome {
            CallOutcome::Success => self.record_call_result(shared, provider, slot, true, now),
            CallOutcome::Failure => self.record_call_result(shared, provider, slot, false, now),
            CallOutcome::Neutral => {},
        }
    }

    /// Opens a call: the provider must be an identifier, by `id_check`, and be
    /// admitted. A probe with a credential that is not stored is held to the
    /// budgets, and neither reads nor changes the circuit. The result is the
    /// account's key.
    pub fn open_call(
        &self,
        shared: &Shared,
        provider: &str,
        account: Option<&str>,
        enforce_circuit: bool,
        id_check: Result<(), String>,
        today: &Today,
        now: u64,
    ) -> (r: Result<String, String>)
        ensures
            match id_check {
                Err(error) => r == Err::<String, String>(error),
                Ok(_) => {
                    let refused = if enforce_circuit {
                        self.refusal(shared.health@, provider@, *today, now)
                    } else {
                        budget_refusal(provider@, self.config, *today)
                    };
                    match refused {
                        Some(reason) => r matches Err(e) && e@ == reason,
                        None => r matches Ok(key) && key@ == account_key(
                            provider@,
                            match opt_str(account) {
                                Some(name) => name,
                                None => "default"@,
                            },
                        ),
                    }
                },
            },
    {
        match id_check {
            Err(error) => return Err(error),
            Ok(_) => {},
        }
        let admitted = if enforce_circuit {
            self.admission(shared, provider, today, now)
        } else {
            shared.health.budget_admit(provider, &self.config, today)
        };
        match admitted {
            Err(e) => Err(e),
            Ok(_) => {
                let name = match account {
                    Some(name) => name,
                    None => "default",
                };
                Ok(account_id(provider, name))
            },
        }
    }

    /// How long the account has to wait for a place in its window.
    pub fn rpm_wait(&self, shared: &Shared, key: &str, now: u64) -> (r: u64)
        ensures
            r == shared.rpm@.wait(key@, limit_at(key@, self.config), now),
    {
        let limit: Option<u32> = rpm_limit(&self.config, key);
        shared.rpm.wait_ms(key, limit, now)
    }

    /// Whether the account's window is full.
    pub fn rpm_blocked(&self, shared: &Shared, key: &str, now: u64) -> (r: bool)
        ensures
            r == self.window_full(shared.rpm@, key@, now),
    {
        let limit: Option<u32> = rpm_limit(&self.config, key);
        shared.rpm.is_full(key, limit, now)
    }

    pub open spec fn window_full(self, rpm: RpmView, key: Seq<char>, now: u64) -> bool {
        rpm.full(key, limit_at(key, self.config), now)
    }

    /// The slots that a provider has.
    pub open spec fn provider_slots(self, provider: Seq<char>) -> usize {
        match self.config.limit(provider).concurrent {
            Some(n) => n as usize,
            None => self.global_slots(),
        }
    }

    pub open spec fn global_slots(self) -> usize {
        if self.config.limits.global_concurrent == 0 {
            1
        } else {
            self.config.limits.global_concurrent as usize
        }
    }

    fn global_limit(&self) -> (r: usize)
        ensures
            r == self.global_slots(),
    {
        if self.config.limits.global_concurrent == 0 {
            1
        } else {
            self.config.limits.global_concurrent as usize
        }
    }

    pub fn slot_limit(&self, provider: &str) -> (r: usize)
        ensures
            r == self.provider_slots(provider@),
    {
        match self.config.limit_of(provider).concurrent {
            Some(n) => n as usize,
            None => self.global_limit(),
        }
    }

    pub open spec fn has_free_slot(self, pools: Map<Seq<char>, usize>, provider: Seq<char>) -> bool {
        used(pools, pool_key(provider)) < slots(self.provider_slots(provider))
    }

    pub fn available(&self, shared: &Shared, provider: &str) -> (r: bool)
        ensures
            r == self.has_free_slot(shared.pools@, provider@),
    {
        let key = provider_pool_key(provider);
        let limit: usize = self.slot_limit(provider);
        let capacity: usize = if limit == 0 {
            1
        } else {
            limit
        };
        shared.pools.in_flight(key.as_str()) < capacity
    }

    /// Takes one of the provider's slots, if one is free now.
    pub fn acquire_provider(&self, shared: &mut Shared, provider: &str) -> (r: Option<PoolPermit>)
        ensures
            if self.has_free_slot(old(shared).pools@, provider@) {
                &&& r matches Some(permit)
                &&& permit@ == pool_key(provider@)
                &&& final(shared).pools@ == old(shared).pools@.insert(
                    pool_key(provider@),
                    (used(old(shared).pools@, pool_key(provider@)) + 1) as usize,
                )
            } else {
                &&& r is None
                &&& final(shared).pools@ == old(shared).pools@
            },
            final(shared).rpm@ == old(shared).rpm@,
            final(shared).health@ == old(shared).health@,
            final(shared).history == old(shared).history,
    {
        let key = provider_pool_key(provider);
        let limit: usize = self.slot_limit(provider);
        shared.pools.try_acquire(key.as_str(), limit)
    }

    /// Takes one of the slots that all providers share, if one is free now.
    pub fn acquire_global(&self, shared: &mut Shared) -> (r: Option<PoolPermit>)
        ensures
            if used(old(shared).pools@, GLOBAL_POOL_KEY@) < self.global_slots() {
                &&& r matches Some(permit)
                &&& permit@ == GLOBAL_POOL_KEY@
                &&& final(shared).pools@ == old(shared).pools@.insert(
                    GLOBAL_POOL_KEY@,
                    (used(old(shared).pools@, GLOBAL_POOL_KEY@) + 1) as usize,
                )
            } else {
                &&& r is None
                &&& final(shared).pools@ == old(shared).pools@
            },
            final(shared).rpm@ == old(shared).rpm@,
            final(shared).health@ == old(shared).health@,
            final(shared).history == old(shared).history,
    {
        let limit: usize = self.global_limit();
        shared.pools.try_acquire(GLOBAL_POOL_KEY, limit)
    }

    /// A call has its two slots: it starts unless its window filled up, or
    /// admission refuses it now. A refusal leaves no trace in window or slots.
    pub fn try_start(
        &self,
        shared: &mut Shared,
        provider: &str,
        key: &str,
        permit_provider: PoolPermit,
        permit_global: PoolPermit,
        enforce_circuit: bool,
        today: &Today,
        now: u64,
    ) -> (r: StartStep)
        ensures
            final(shared).history == old(shared).history,
            ({
                let given_back = freed(
                    freed(old(shared).pools@, permit_global@),
                    permit_provider@,
                );
                let limited = limit_at(key@, self.config) is Some;
                match r {
                    StartStep::Retry => {
                        &&& self.window_full(old(shared).rpm@, key@, now)
                        &&& final(shared).pools@ == given_back
                        &&& final(shared).rpm@ == old(shared).rpm@.pruned_at(key@, now)
                        &&& final(shared).health@ == old(shared).health@
                    },
                    StartStep::Refused(e) => {
                        &&& !self.window_full(old(shared).rpm@, key@, now)
                        &&& final(shared).pools@ == given_back
                        &&& final(shared).rpm@ == (if limited {
                            old(shared).rpm@.reserved(key@, now).cancelled(
                                key@,
                                old(shared).rpm@.sequence,
                            )
                        } else {
                            old(shared).rpm@
                        })
                        &&& if enforce_circuit {
                            &&& claim_result(
                                old(shared).health@,
                                self.circuit_scope@,
                                provider@,
                                self.config,
                                *today,
                                now,
                            ) == Err::<Option<(u64, Option<u64>, KeyView)>, Seq<char>>(e@)
                            &&& final(shared).health@ == claim_effect(
                                old(shared).health@,
                                self.circuit_scope@,
                                provider@,
                                self.config,
                                *today,
                                now,
                            )
                        } else {
                            &&& budget_refusal(provider@, self.config, *today) == Some(e@)
                            &&& final(shared).health@ == old(shared).health@
                        }
                    },
                    StartStep::Granted(permit) => {
                        &&& !self.window_full(old(shared).rpm@, key@, now)
                        &&& final(shared).pools@ == old(shared).pools@
                        &&& permit.slot.permit_provider@ == permit_provider@
                        &&& permit.slot.permit_global@ == permit_global@
                        &&& if enforce_circuit {
                            &&& final(shared).health@ == claim_effect(
                                old(shared).health@,
                                self.circuit_scope@,
                                provider@,
                                self.config,
                                *today,
                                now,
                            )
                            &&& match permit.slot.circuit_lease {
                                Some(l) => claim_result(
                                    old(shared).health@,
                                    self.circuit_scope@,
                                    provider@,
                                    self.config,
                                    *today,
                                    now,
                                ) == Ok::<_, Seq<char>>(Some((l.generation, l.probe_id, l.key@))),
                                None => claim_result(
                                    old(shared).health@,
                                    self.circuit_scope@,
                                    provider@,
                                    self.config,
                                    *today,
                                    now,
                                ) == Ok::<Option<(u64, Option<u64>, KeyView)>, Seq<char>>(None),
                            }
                        } else {
                            &&& budget_refusal(provider@, self.config, *today) is None
                            &&& permit.slot.circuit_lease is None
                            &&& final(shared).health@ == old(shared).health@
                        }
                        &&& if limited {
                            &&& opt_view(permit.rpm.key) == Some(key@)
                            &&& permit.rpm.id == old(shared).rpm@.sequence
                            &&& final(shared).rpm@ == old(shared).rpm@.reserved(key@, now)
                        } else {
                            &&& permit.rpm.key is None
                            &&& final(shared).rpm@ == old(shared).rpm@
                        }
                    },
                }
            }),
    {
        let limit: Option<u32> = rpm_limit(&self.config, key);
        let reservation = shared.rpm.reserve(key, limit, now);
        match reservation {
            None => {
                shared.pools.release(permit_global);
                shared.pools.release(permit_provider);
                StartStep::Retry
            },
            Some(rpm) => {
                let claimed = if enforce_circuit {
                    shared.health.claim(
                        self.circuit_scope.as_str(),
                        provider,
                        &self.config,
                        today,
                        now,
                    )
                } else {
                    match shared.health.budget_admit(provider, &self.config, today) {
                        Err(e) => Err(e),
                        Ok(_) => Ok(None),
                    }
                };
                match claimed {
                    Err(e) => {
                        shared.rpm.cancel(rpm);
                        shared.pools.release(permit_global);
                        shared.pools.release(permit_provider);
                        StartStep::Refused(e)
                    },
                    Ok(circuit_lease) => StartStep::Granted(
                        CallPermit {
                            slot: Slot { permit_global, permit_provider, circuit_lease },
                            rpm,
                        },
                    ),
                }
            },
        }
    }

    /// The lines of `describe` on the pools of providers.
    pub open spec fn pool_lines(self, keys: Seq<Seq<char>>, pools: Map<Seq<char>, usize>) -> Seq<Seq<char>>
        decreases keys.len(),
    {
        if keys.len() == 0 {
            Seq::empty()
        } else {
            let head = self.pool_lines(keys.drop_last(), pools);
            match crate::text::behind(keys.last(), "provider:"@) {
                None => head,
                Some(provider) => {
                    let limit = slots(self.provider_slots(provider));
                    let busy = used(pools, keys.last());
                    let free = if busy < limit {
                        limit - busy
                    } else {
                        0
                    };
                    head.push(
                        provider + ": "@ + decimal(free as nat) + "/"@ + decimal(limit as nat)
                            + " available"@,
                    )
                },
            }
        }
    }

    /// The limits and how many slots are free, in words.
    pub fn describe(&self, shared: &Shared) -> (r: String)
        ensures
            r@ == joined(
                seq![
                    "global limit: "@ + decimal(self.config.limits.global_concurrent as nat),
                ] + self.pool_lines(shared.pools.keys(), shared.pools@),
                "\n"@,
            ),
    {
        let mut lines: Vec<String> = Vec::new();
        let global = decimal_of(self.config.limits.global_concurrent as u64);
        let first = cat2("global limit: ", global.as_str());
        let ghost head = seq![first@];
        lines.push(first);
        let n: usize = shared.pools.len();
        let ghost keys = shared.pools.keys();
        let mut i: usize = 0;
        assert(views(lines@) =~= head + self.pool_lines(keys.take(0), shared.pools@));
        while i < n
            invariant
                i <= n == keys.len(),
                keys == shared.pools.keys(),
                views(lines@) == head + self.pool_lines(keys.take(i as int), shared.pools@),
            decreases n - i,
        {
            let (key, busy): (&String, usize) = shared.pools.entry(i);
            assert(keys.take(i + 1).drop_last() =~= keys.take(i as int));
            if let Some(provider) = strip_prefix(key.as_str(), "provider:") {
                let raw: usize = self.slot_limit(provider.as_str());
                let limit: usize = if raw == 0 {
                    1
                } else {
                    raw
                };
                let free = decimal_of(limit.saturating_sub(busy) as u64);
                let total = decimal_of(limit as u64);
                let mut line = cat5(
                    provider.as_str(),
                    ": ",
                    free.as_str(),
                    "/",
                    total.as_str(),
                );
                line = cat2(line.as_str(), " available");
                let ghost before = lines@;
                let ghost text = line@;
                lines.push(line);
                assert(views(lines@) =~= views(before).push(text));
            }
            assert(views(lines@) =~= head + self.pool_lines(keys.take(i + 1), shared.pools@));
            i = i + 1;
        }
        assert(keys.take(i as int) =~= keys);
        join(lines.as_slice(), "\n")
    }
}

/// New settings do not close a circuit: where it refused a call, and the settings
/// keep the provider's endpoint, threshold and cooldown, it still refuses.
pub proof fn law_open_circuit_survives_new_settings(
    before: ModelResourceManager,
    after: ModelResourceManager,
    health: HealthView,
    provider: Seq<char>,
    today: Today,
    now: u64,
)
    requires
        after.circuit_scope == before.circuit_scope,
        key_of(before.circuit_scope@, provider, after.config) == key_of(
            before.circuit_scope@,
            provider,
            before.config,
        ),
        after.config.limit(provider).threshold() == before.config.limit(provider).threshold(),
        after.config.limit(provider).cooldown() == before.config.limit(provider).cooldown(),
        budget_refusal(provider, before.config, today) is None,
        before.refusal(health, provider, today, now) is Some,
    ensures
        after.refusal(
            reconfigured(health, before.circuit_scope@, after.config, now),
            provider,
            today,
            now,
        ) is Some,
{
}

/// A result changes the circuit that it is for and no other: that of the lease, or
/// else of the provider. Without a threshold nothing changes.
pub proof fn law_results_stay_with_their_circuit(
    m: ModelResourceManager,
    health: HealthView,
    provider: Seq<char>,
    success: bool,
    lease: Option<&AdmissionLease>,
    enforce: bool,
    now: u64,
    other: KeyView,
)
    requires
        lease is Some ==> other != lease->0.key@,
        lease is None ==> other != key_of(m.circuit_scope@, provider, m.config),
    ensures
        m.settled(health, provider, success, lease, enforce, now).at(other) == health.at(other),
        m.config.limit(provider).threshold() == 0 ==> m.settled(
            health,
            provider,
            success,
            lease,
            enforce,
            now,
        ) == health,
{
}

/// A provider is admitted exactly where its budget and its circuit let a call
/// through.
pub proof fn law_admission_needs_budget_and_circuit(
    m: ModelResourceManager,
    health: HealthView,
    provider: Seq<char>,
    today: Today,
    now: u64,
)
    ensures
        m.refusal(health, provider, today, now) is None <==> budget_refusal(
            provider,
            m.config,
            today,
        ) is None && health.at(key_of(m.circuit_scope@, provider, m.config)).verdict(
            m.config.limit(provider).threshold(),
            m.config.limit(provider).cooldown(),
            now,
        ) == Verdict::Pass,
{
}

/// A provider has as many slots as it is configured for, and else as many as there
/// are for all; there is always one. One is free while fewer are in use.
pub proof fn law_slots_are_those_configured(
    m: ModelResourceManager,
    pools: Map<Seq<char>, usize>,
    provider: Seq<char>,
)
    ensures
        m.config.limit(provider).concurrent matches Some(n) ==> m.provider_slots(provider) == n,
        m.config.limit(provider).concurrent is None ==> m.provider_slots(provider)
            == m.global_slots(),
        m.global_slots() >= 1,
        m.config.limits.global_concurrent > 0 ==> m.global_slots()
            == m.config.limits.global_concurrent,
        m.has_free_slot(pools, provider) <==> used(pools, pool_key(provider)) == 0 || used(
            pools,
            pool_key(provider),
        ) < m.provider_slots(provider),
{
}

/// Each provider has a pool of its own, and none is the one of all.
pub proof fn law_pools_are_separate(a: Seq<char>, b: Seq<char>)
    ensures
        pool_key(a) == pool_key(b) ==> a == b,
        pool_key(a) != GLOBAL_POOL_KEY@,
{
    reveal_strlit("provider:");
    reveal_strlit("global");
    assert("provider:"@.len() == 9);
    assert("global"@.len() == 6);
    assert(pool_key(a).len() == 9 + a.len());
    if pool_key(a) == pool_key(b) {
        assert(pool_key(a).subrange(9, pool_key(a).len() as int) =~= a);
        assert(pool_key(b).subrange(9, pool_key(b).len() as int) =~= b);
    }
}

/// A slot that goes back frees what was taken for it in both pools, and nothing in
/// any other.
pub proof fn law_slot_goes_back(pools: Map<Seq<char>, usize>, slot: Slot, other: Seq<char>)
    requires
        slot.permit_global@ != slot.permit_provider@,
        used(pools, slot.permit_global@) > 0,
        used(pools, slot.permit_provider@) > 0,
    ensures
        used(pools_without(pools, slot), slot.permit_global@) == used(pools, slot.permit_global@) - 1,
        used(pools_without(pools, slot), slot.permit_provider@) == used(
            pools,
            slot.permit_provider@,
        ) - 1,
        other != slot.permit_global@ && other != slot.permit_provider@ ==> used(
            pools_without(pools, slot),
            other,
        ) == used(pools, other),
{
}

/// A slot that goes back lets the probe go that it held, in its own generation, and
/// leaves every other circuit as it is.
pub proof fn law_probe_goes_back(health: HealthView, lease: AdmissionLease, other: KeyView)
    requires
        health.circuits.contains_key(lease.key@),
    ensures
        lease.probe_id is Some && health.at(lease.key@).half_open_probe == lease.probe_id && health.at(
            lease.key@,
        ).generation == lease.generation ==> lease_released(health, Some(lease)).at(
            lease.key@,
        ).half_open_probe is None,
        lease.probe_id is None || health.at(lease.key@).half_open_probe != lease.probe_id
            || health.at(lease.key@).generation != lease.generation ==> lease_released(
            health,
            Some(lease),
        ).at(lease.key@) == health.at(lease.key@),
        other != lease.key@ ==> lease_released(health, Some(lease)).at(other) == health.at(other),
        lease_released(health, None) == health,
{
}

/// A role is bound and a provider defined as the settings say, and not otherwise.
pub proof fn law_settings_are_looked_up(config: Config, name: Seq<char>)
    ensures
        config.roles@.contains_key(name) ==> bound_in(config, name) == Some(config.roles@[name]),
        !config.roles@.contains_key(name) ==> bound_in(config, name) is None,
        config.custom_providers@.contains_key(name) ==> defined_in(config, name) == Some(
            config.custom_providers@[name],
        ),
        !config.custom_providers@.contains_key(name) ==> defined_in(config, name) is None,
{
}

/// Each pool of a provider has a line that says how many of its slots are free: those
/// in use and those that are free make up all of them. Other pools have no line.
pub proof fn law_free_slots_are_told(
    manager: ModelResourceManager,
    keys: Seq<Seq<char>>,
    pools: Map<Seq<char>, usize>,
    provider: Seq<char>,
    other: Seq<char>,
    free: nat,
)
    requires
        free + used(pools, "provider:"@ + provider) == slots(manager.provider_slots(provider)),
        !starts(other, "provider:"@),
    ensures
        manager.pool_lines(keys.push("provider:"@ + provider), pools) == manager.pool_lines(
            keys,
            pools,
        ).push(
            provider + ": "@ + decimal(free) + "/"@ + decimal(
                slots(manager.provider_slots(provider)) as nat,
            ) + " available"@,
        ),
        manager.pool_lines(keys.push(other), pools) == manager.pool_lines(keys, pools),
        manager.pool_lines(Seq::empty(), pools).len() == 0,
{
    let key = "provider:"@ + provider;
    assert(keys.push(key).drop_last() =~= keys);
    assert(keys.push(other).drop_last() =~= keys);
    law_what_was_put_on_is_taken_off(provider, "provider:"@);
}

} // verus!
