//! Admission to a provider: daily budgets and the circuit breaker.

use crate::config::{Config, CustomProviderDef, ProviderLimit};
use crate::llm::circuit::{Circuit, Grant, Verdict};
use crate::table::Table;
use crate::text::{
    ascending, cat3, cat5, decimal, decimal_of, join, joined, opt_clone, opt_eq, opt_view, sort,
    starts, str_eq, strip_prefix, trim_end_matches, trimmed_of, views,
};
use vstd::prelude::*;

verus! {

/// A circuit belongs to a workspace's view of a provider; that of a custom
/// provider also to the endpoint that was configured.
#[derive(Debug)]
pub struct CircuitKey {
    pub scope: String,
    pub provider: String,
    pub endpoint: Option<String>,
}

#[verifier::ext_equal]
pub struct KeyView {
    pub scope: Seq<char>,
    pub provider: Seq<char>,
    pub endpoint: Option<Seq<char>>,
}

impl View for CircuitKey {
    type V = KeyView;

    open spec fn view(&self) -> KeyView {
        KeyView {
            scope: self.scope@,
            provider: self.provider@,
            endpoint: opt_view(self.endpoint),
        }
    }
}

impl CircuitKey {
    fn same(&self, other: &CircuitKey) -> (r: bool)
        ensures
            r == (self@ == other@),
    {
        str_eq(self.scope.as_str(), other.scope.as_str()) && str_eq(
            self.provider.as_str(),
            other.provider.as_str(),
        ) && opt_eq(&self.endpoint, &other.endpoint)
    }

    fn copy(&self) -> (r: CircuitKey)
        ensures
            r@ == self@,
    {
        CircuitKey {
            scope: self.scope.clone(),
            provider: self.provider.clone(),
            endpoint: opt_clone(&self.endpoint),
        }
    }
}

/// The endpoint of a custom provider as it is configured.
pub open spec fn endpoint_of(provider: Seq<char>, custom: Map<Seq<char>, CustomProviderDef>) -> Option<Seq<char>> {
    match crate::text::behind(provider, "custom:"@) {
        None => None,
        Some(name) => Some(
            if custom.contains_key(name) {
                custom[name].protocol@ + "|"@ + trimmed_of(custom[name].base_url@, '/')
            } else {
                "unconfigured"@
            },
        ),
    }
}

pub open spec fn key_of(scope: Seq<char>, provider: Seq<char>, config: Config) -> KeyView {
    KeyView {
        scope,
        provider,
        endpoint: endpoint_of(provider, config.custom_providers@),
    }
}

pub fn circuit_key(scope: &str, provider: &str, config: &Config) -> (r: CircuitKey)
    ensures
        r@ == key_of(scope@, provider@, *config),
{
    let endpoint = match strip_prefix(provider, "custom:") {
        None => None,
        Some(name) => match config.custom_providers.get(name.as_str()) {
            None => Some("unconfigured".to_owned()),
            Some(definition) => {
                let base = trim_end_matches(definition.base_url.as_str(), '/');
                Some(cat3(definition.protocol.as_str(), "|", base.as_str()))
            },
        },
    };
    CircuitKey { scope: scope.to_owned(), provider: provider.to_owned(), endpoint }
}

/// The right to report a call's result: of the generation it began in, and of
/// the probe that it is.
#[derive(Debug)]
pub struct AdmissionLease {
    pub generation: u64,
    pub probe_id: Option<u64>,
    pub key: CircuitKey,
}

/// Tokens used today by one provider; calls whose cost is not known are counted
/// apart.
#[derive(Debug, Clone, Copy, PartialEq, Eq, Structural)]
pub struct ProviderUsage {
    pub input: u64,
    pub output: u64,
    pub unmetered_calls: u64,
}

pub struct DayUsage {
    pub input: u64,
    pub output: u64,
    pub by_provider: Table<ProviderUsage>,
}

impl DayUsage {
    pub open spec fn of(self, provider: Seq<char>) -> ProviderUsage {
        if self.by_provider@.contains_key(provider) {
            self.by_provider@[provider]
        } else {
            ProviderUsage { input: 0, output: 0, unmetered_calls: 0 }
        }
    }

    pub fn usage_of(&self, provider: &str) -> (r: ProviderUsage)
        ensures
            r == self.of(provider@),
    {
        match self.by_provider.get(provider) {
            Some(usage) => *usage,
            None => ProviderUsage { input: 0, output: 0, unmetered_calls: 0 },
        }
    }
}

/// How today's cost of a provider stands to its budget; without prices there is
/// no telling. `Reached` carries the figures in words.
#[derive(Debug)]
pub enum CostCheck {
    Within,
    Reached(String),
    NoRates,
}

/// The sum of two numbers, at most the largest one.
pub open spec fn sum_capped(a: u64, b: u64) -> u64 {
    if a + b > u64::MAX {
        u64::MAX
    } else {
        (a + b) as u64
    }
}

/// The providers with calls of unknown cost, each with their number.
pub open spec fn unknown_calls(order: Seq<Seq<char>>, usage: Map<Seq<char>, ProviderUsage>) -> Seq<Seq<char>>
    decreases order.len(),
{
    if order.len() == 0 {
        Seq::empty()
    } else {
        let head = unknown_calls(order.drop_last(), usage);
        let calls = usage[order.last()].unmetered_calls;
        if calls > 0 {
            head.push(order.last() + "="@ + decimal(calls as nat))
        } else {
            head
        }
    }
}

/// Why the day's token budget refuses a call, if it does.
pub open spec fn token_refusal(budget: Option<u64>, today: DayUsage) -> Option<Seq<char>> {
    match budget {
        None => None,
        Some(limit) => {
            let unknown = unknown_calls(today.by_provider.order(), today.by_provider@);
            if sum_capped(today.input, today.output) >= limit {
                Some("daily token admission threshold reached"@)
            } else if unknown.len() > 0 {
                Some(
                    "daily token admission unavailable: Provider usage UNKNOWN for unmetered calls ("@
                        + joined(unknown, ", "@) + ")"@,
                )
            } else {
                None
            }
        },
    }
}

/// Why the provider's cost budget refuses a call, if it does.
pub open spec fn cost_refusal(provider: Seq<char>, limit: ProviderLimit, usage: ProviderUsage, cost: CostCheck) -> Option<Seq<char>> {
    if !limit.has_cost_budget {
        None
    } else if usage.unmetered_calls > 0 {
        Some(
            "provider "@ + provider + " cost admission unavailable: usage UNKNOWN for "@ + decimal(
                usage.unmetered_calls as nat,
            ) + " unmetered calls"@,
        )
    } else {
        match cost {
            CostCheck::Within => None,
            CostCheck::Reached(figures) => Some(
                "provider "@ + provider + " daily estimated cost admission threshold reached ("@
                    + figures@ + ")"@,
            ),
            CostCheck::NoRates => Some(
                "provider "@ + provider
                    + " cost budget requires explicit input/output USD per million rates"@,
            ),
        }
    }
}

/// Why today's usage refuses a call: tokens first, then cost. Usage that is not
/// known refuses wherever a budget is set.
pub open spec fn usage_refusal(provider: Seq<char>, config: Config, today: DayUsage, cost: CostCheck) -> Option<Seq<char>> {
    match token_refusal(config.limits.daily_token_budget, today) {
        Some(reason) => Some(reason),
        None => cost_refusal(provider, config.limit(provider), today.of(provider), cost),
    }
}

fn unknown_call_list(today: &DayUsage) -> (r: Vec<String>)
    ensures
        views(r@) == unknown_calls(today.by_provider.order(), today.by_provider@),
{
    let n: usize = today.by_provider.len();
    let ghost order = today.by_provider.order();
    let ghost map = today.by_provider@;
    let mut out: Vec<String> = Vec::new();
    let mut i: usize = 0;
    assert(views(out@) =~= unknown_calls(order.take(0), map));
    while i < n
        invariant
            i <= n == order.len(),
            order == today.by_provider.order(),
            map == today.by_provider@,
            views(out@) == unknown_calls(order.take(i as int), map),
        decreases n - i,
    {
        let (provider, usage) = today.by_provider.entry(i);
        assert(order.take(i + 1).drop_last() =~= order.take(i as int));
        if usage.unmetered_calls > 0 {
            let count = decimal_of(usage.unmetered_calls);
            let text = cat3(provider.as_str(), "=", count.as_str());
            let ghost before = out@;
            let ghost t = text@;
            out.push(text);
            assert(views(out@) =~= views(before).push(t));
        }
        i = i + 1;
    }
    assert(order.take(i as int) =~= order);
    out
}

pub fn budget_error_for(provider: &str, config: &Config, today: &DayUsage, cost: &CostCheck) -> (r:
    Option<String>)
    ensures
        opt_view(r) == usage_refusal(provider@, *config, *today, *cost),
{
    if let Some(budget) = config.limits.daily_token_budget {
        if today.input.saturating_add(today.output) >= budget {
            return Some("daily token admission threshold reached".to_owned());
        }
        let unknown = unknown_call_list(today);
        assert(views(unknown@).len() == unknown@.len());
        if unknown.len() > 0 {
            let list = join(unknown.as_slice(), ", ");
            return Some(
                cat3(
                    "daily token admission unavailable: Provider usage UNKNOWN for unmetered calls (",
                    list.as_str(),
                    ")",
                ),
            );
        }
    }
    let limit = config.limit_of(provider);
    if !limit.has_cost_budget {
        return None;
    }
    let usage = today.usage_of(provider);
    if usage.unmetered_calls > 0 {
        let count = decimal_of(usage.unmetered_calls);
        return Some(
            cat5(
                "provider ",
                provider,
                " cost admission unavailable: usage UNKNOWN for ",
                count.as_str(),
                " unmetered calls",
            ),
        );
    }
    match cost {
        CostCheck::Within => None,
        CostCheck::Reached(figures) => Some(
            cat5(
                "provider ",
                provider,
                " daily estimated cost admission threshold reached (",
                figures.as_str(),
                ")",
            ),
        ),
        CostCheck::NoRates => Some(
            cat3(
                "provider ",
                provider,
                " cost budget requires explicit input/output USD per million rates",
            ),
        ),
    }
}

/// What admission has to know of today: the usage, or why it cannot be read,
/// and how the cost of each provider stands to its budget.
pub struct Today {
    pub usage: Result<DayUsage, String>,
    pub costs: Table<CostCheck>,
}

impl Today {
    /// A provider whose cost nobody worked out has no rates.
    pub open spec fn cost(self, provider: Seq<char>) -> CostCheck {
        if self.costs@.contains_key(provider) {
            self.costs@[provider]
        } else {
            CostCheck::NoRates
        }
    }
}

/// Whether any budget applies to the provider.
pub open spec fn has_budget(provider: Seq<char>, config: Config) -> bool {
    config.limits.daily_token_budget is Some || config.limit(provider).has_cost_budget
}

/// Why the budgets refuse a call. Usage is read only where a budget applies,
/// and not being able to read it refuses.
pub open spec fn budget_refusal(provider: Seq<char>, config: Config, today: Today) -> Option<Seq<char>> {
    if !has_budget(provider, config) {
        None
    } else {
        match today.usage {
            Err(e) => Some(e@),
            Ok(usage) => usage_refusal(provider, config, usage, today.cost(provider)),
        }
    }
}

/// What a circuit's verdict says to the caller.
pub open spec fn verdict_text(provider: Seq<char>, verdict: Verdict) -> Option<Seq<char>> {
    match verdict {
        Verdict::Pass => None,
        Verdict::ProbeInProgress => Some(
            "provider "@ + provider + " circuit half-open probe in progress"@,
        ),
        Verdict::OpenFor(seconds) => Some(
            "provider "@ + provider + " circuit open; retry in "@ + decimal(seconds as nat) + "s"@,
        ),
    }
}

fn refusal(provider: &str, verdict: Verdict) -> (r: Result<(), String>)
    ensures
        match verdict_text(provider@, verdict) {
            None => r is Ok,
            Some(text) => r matches Err(e) && e@ == text,
        },
{
    match verdict {
        Verdict::Pass => Ok(()),
        Verdict::ProbeInProgress => Err(
            cat3("provider ", provider, " circuit half-open probe in progress"),
        ),
        Verdict::OpenFor(seconds) => {
            let count = decimal_of(seconds);
            Err(cat5("provider ", provider, " circuit open; retry in ", count.as_str(), "s"))
        },
    }
}

struct Entry {
    key: CircuitKey,
    circuit: Circuit,
}

/// The circuits of all providers.
pub struct Health {
    entries: Vec<Entry>,
    probe_sequence: u64,
}

#[verifier::ext_equal]
pub struct HealthView {
    pub circuits: Map<KeyView, Circuit>,
    /// The number of the last probe that was handed out.
    pub probe_sequence: u64,
}

impl HealthView {
    /// The circuit under a key; a new one where there is none.
    pub open spec fn at(self, key: KeyView) -> Circuit {
        if self.circuits.contains_key(key) {
            self.circuits[key]
        } else {
            Circuit::fresh()
        }
    }

    pub open spec fn with(self, key: KeyView, circuit: Circuit) -> HealthView {
        HealthView { circuits: self.circuits.insert(key, circuit), ..self }
    }

    /// The number of the next probe.
    pub open spec fn next_probe(self) -> u64 {
        if self.probe_sequence == u64::MAX {
            u64::MAX
        } else {
            (self.probe_sequence + 1) as u64
        }
    }

    pub open spec fn after_probe(self) -> HealthView {
        HealthView {
            probe_sequence: if self.probe_sequence == u64::MAX {
                0
            } else {
                (self.probe_sequence + 1) as u64
            },
            ..self
        }
    }
}

impl Health {
    #[verifier::type_invariant]
    spec fn inv(self) -> bool {
        forall|i: int, j: int|
            0 <= i < j < self.entries@.len() ==> #[trigger] self.entries@[i].key@
                != #[trigger] self.entries@[j].key@
    }

    pub closed spec fn circuits(self) -> Map<KeyView, Circuit> {
        Map::new(
            |k: KeyView|
                exists|i: int|
                    0 <= i < self.entries@.len() && #[trigger] self.entries@[i].key@ == k,
            |k: KeyView|
                self.entries@[choose|i: int|
                    0 <= i < self.entries@.len() && #[trigger] self.entries@[i].key@ == k].circuit,
        )
    }

    proof fn lemma_at(self, i: int)
        requires
            self.inv(),
            0 <= i < self.entries@.len(),
        ensures
            self@.circuits.contains_key(self.entries@[i].key@),
            self@.circuits[self.entries@[i].key@] == self.entries@[i].circuit,
    {
        let k = self.entries@[i].key@;
        let j = choose|j: int| 0 <= j < self.entries@.len() && #[trigger] self.entries@[j].key@ == k;
        assert(j == i);
    }
}

impl View for Health {
    type V = HealthView;

    closed spec fn view(&self) -> HealthView {
        HealthView { circuits: self.circuits(), probe_sequence: self.probe_sequence }
    }
}

/// What a claim comes to: nothing to hold where the breaker is switched off,
/// else a lease or a refusal.
pub open spec fn claim_result(
    health: HealthView,
    scope: Seq<char>,
    provider: Seq<char>,
    config: Config,
    today: Today,
    now: u64,
) -> Result<Option<(u64, Option<u64>, KeyView)>, Seq<char>> {
    let limit = config.limit(provider);
    let key = key_of(scope, provider, config);
    let circuit = health.at(key);
    match budget_refusal(provider, config, today) {
        Some(reason) => Err(reason),
        None => if limit.threshold() == 0 {
            Ok(None)
        } else {
            let after = circuit.claimed(limit.threshold(), limit.cooldown(), now, health.next_probe());
            match circuit.grant(limit.threshold(), limit.cooldown(), now, health.next_probe()) {
                Grant::Closed => Ok(Some((after.generation, None, key))),
                Grant::Probe(id) => Ok(Some((after.generation, Some(id), key))),
                Grant::Refused(verdict) => Err(verdict_text(provider, verdict)->0),
            }
        },
    }
}

/// The circuits after a claim.
pub open spec fn claim_effect(
    health: HealthView,
    scope: Seq<char>,
    provider: Seq<char>,
    config: Config,
    today: Today,
    now: u64,
) -> HealthView {
    let limit = config.limit(provider);
    let key = key_of(scope, provider, config);
    let circuit = health.at(key);
    if budget_refusal(provider, config, today) is Some || limit.threshold() == 0 {
        health
    } else {
        let id = health.next_probe();
        let next = health.with(key, circuit.claimed(limit.threshold(), limit.cooldown(), now, id));
        if circuit.grant(limit.threshold(), limit.cooldown(), now, id) is Probe {
            next.after_probe()
        } else {
            next
        }
    }
}

pub open spec fn lease_parts(lease: Option<&AdmissionLease>) -> Option<(u64, Option<u64>)> {
    match lease {
        Some(l) => Some((l.generation, l.probe_id)),
        None => None,
    }
}

/// The circuit that a result is for: the one that the lease was given for, even
/// if the settings have changed since.
pub open spec fn result_key(
    scope: Seq<char>,
    provider: Seq<char>,
    lease: Option<&AdmissionLease>,
    config: Config,
) -> KeyView {
    match lease {
        Some(l) => l.key@,
        None => key_of(scope, provider, config),
    }
}

/// A circuit under new settings of its workspace: one that belongs to another
/// workspace, or to an endpoint that is no longer configured, is left alone.
pub open spec fn reconfigured_circuit(key: KeyView, circuit: Circuit, scope: Seq<char>, config: Config, now: u64) -> Circuit {
    if key.scope != scope || key != key_of(scope, key.provider, config) {
        circuit
    } else {
        let threshold = config.limit(key.provider).threshold();
        if threshold == 0 {
            circuit.reset()
        } else {
            circuit.normalized(threshold, now)
        }
    }
}

pub open spec fn reconfigured(health: HealthView, scope: Seq<char>, config: Config, now: u64) -> HealthView {
    HealthView {
        circuits: Map::new(
            |k: KeyView| health.circuits.contains_key(k),
            |k: KeyView| reconfigured_circuit(k, health.circuits[k], scope, config, now),
        ),
        ..health
    }
}

impl Health {
    pub fn new() -> (r: Health)
        ensures
            r@ == (HealthView { circuits: Map::empty(), probe_sequence: 0 }),
    {
        let r = Health { entries: Vec::new(), probe_sequence: 0 };
        assert(r@.circuits =~= Map::<KeyView, Circuit>::empty());
        r
    }

    fn position(&self, key: &CircuitKey) -> (r: Option<usize>)
        ensures
            match r {
                Some(i) => i < self.entries@.len() && self.entries@[i as int].key@ == key@,
                None => forall|i: int|
                    0 <= i < self.entries@.len() ==> #[trigger] self.entries@[i].key@ != key@,
            },
    {
        let mut i: usize = 0;
        while i < self.entries.len()
            invariant
                i <= self.entries@.len(),
                forall|j: int| 0 <= j < i ==> #[trigger] self.entries@[j].key@ != key@,
            decreases self.entries@.len() - i,
        {
            if self.entries[i].key.same(key) {
                return Some(i);
            }
            i = i + 1;
        }
        None
    }

    fn find(&self, key: &CircuitKey) -> (r: Option<Circuit>)
        ensures
            r == (if self@.circuits.contains_key(key@) {
                Some(self@.circuits[key@])
            } else {
                None
            }),
    {
        proof {
            use_type_invariant(self);
        }
        match self.position(key) {
            Some(i) => {
                proof {
                    self.lemma_at(i as int);
                }
                Some(self.entries[i].circuit)
            },
            None => None,
        }
    }

    fn circuit(&self, key: &CircuitKey) -> (r: Circuit)
        ensures
            r == self@.at(key@),
    {
        match self.find(key) {
            Some(circuit) => circuit,
            None => Circuit::new(),
        }
    }

    fn put(&mut self, key: CircuitKey, circuit: Circuit)
        ensures
            final(self)@ == old(self)@.with(key@, circuit),
    {
        proof {
            use_type_invariant(&*self);
        }
        let found = self.position(&key);
        let mut taken = Health { entries: Vec::new(), probe_sequence: 0 };
        std::mem::swap(&mut taken, self);
        let Health { mut entries, probe_sequence } = taken;
        let ghost k0 = key@;
        match found {
            Some(i) => {
                entries.set(i, Entry { key, circuit });
            },
            None => {
                entries.push(Entry { key, circuit });
            },
        }
        let next = Health { entries, probe_sequence };
        proof {
            assert forall|k: KeyView| true implies #[trigger] next@.circuits.contains_key(k) == old(
                self,
            )@.circuits.insert(k0, circuit).contains_key(k) && (next@.circuits.contains_key(k)
                ==> next@.circuits[k] == old(self)@.circuits.insert(k0, circuit)[k]) by {
                if next@.circuits.contains_key(k) {
                    let i = choose|i: int|
                        0 <= i < next.entries@.len() && #[trigger] next.entries@[i].key@ == k;
                    next.lemma_at(i);
                    if k != k0 {
                        assert(i < old(self).entries@.len());
                        assert(old(self).entries@[i] == next.entries@[i]);
                        old(self).lemma_at(i);
                    }
                }
                if old(self)@.circuits.contains_key(k) {
                    let i = choose|i: int|
                        0 <= i < old(self).entries@.len() && #[trigger] old(self).entries@[i].key@
                            == k;
                    assert(next.entries@[i].key@ == k);
                }
                if k == k0 {
                    let i = match found {
                        Some(i) => i as int,
                        None => next.entries@.len() - 1,
                    };
                    assert(next.entries@[i].key@ == k);
                }
            }
            assert(next@.circuits =~= old(self)@.circuits.insert(k0, circuit));
        }
        *self = next;
    }

    /// Whether the budgets admit a call.
    pub fn budget_admit(&self, provider: &str, config: &Config, today: &Today) -> (r: Result<
        (),
        String,
    >)
        ensures
            match budget_refusal(provider@, *config, *today) {
                None => r is Ok,
                Some(reason) => r matches Err(e) && e@ == reason,
            },
    {
        let limit = config.limit_of(provider);
        if config.limits.daily_token_budget.is_none() && !limit.has_cost_budget {
            return Ok(());
        }
        match &today.usage {
            Err(e) => Err(e.clone()),
            Ok(usage) => {
                let refused = match today.costs.get(provider) {
                    Some(cost) => budget_error_for(provider, config, usage, cost),
                    None => budget_error_for(provider, config, usage, &CostCheck::NoRates),
                };
                match refused {
                    Some(reason) => Err(reason),
                    None => Ok(()),
                }
            },
        }
    }

    /// Whether a call may compete to start. A cooldown that has passed only
    /// makes a probe possible: nothing changes.
    pub fn eligible(&self, scope: &str, provider: &str, config: &Config, today: &Today, now: u64) -> (r:
        Result<(), String>)
        ensures
            match budget_refusal(provider@, *config, *today) {
                Some(reason) => r matches Err(e) && e@ == reason,
                None => {
                    let limit = config.limit(provider@);
                    let circuit = self@.at(key_of(scope@, provider@, *config));
                    match verdict_text(
                        provider@,
                        circuit.verdict(limit.threshold(), limit.cooldown(), now),
                    ) {
                        None => r is Ok,
                        Some(text) => r matches Err(e) && e@ == text,
                    }
                },
            },
    {
        match self.budget_admit(provider, config, today) {
            Err(e) => return Err(e),
            Ok(_) => {},
        }
        let limit = config.limit_of(provider);
        let key = circuit_key(scope, provider, config);
        let circuit = self.circuit(&key);
        let verdict = circuit.check(limit.failure_threshold(), limit.cooldown_seconds(), now);
        refusal(provider, verdict)
    }

    /// Asks to start a call now; the lease is for `record_result` or
    /// `release_probe`.
    pub fn claim(&mut self, scope: &str, provider: &str, config: &Config, today: &Today, now: u64) -> (r:
        Result<Option<AdmissionLease>, String>)
        ensures
            final(self)@ == claim_effect(old(self)@, scope@, provider@, *config, *today, now),
            match claim_result(old(self)@, scope@, provider@, *config, *today, now) {
                Err(text) => r matches Err(e) && e@ == text,
                Ok(None) => r == Ok::<Option<AdmissionLease>, String>(None),
                Ok(Some((generation, probe, key))) => r matches Ok(Some(lease)) && lease.generation
                    == generation && lease.probe_id == probe && lease.key@ == key,
            },
    {
        match self.budget_admit(provider, config, today) {
            Err(e) => return Err(e),
            Ok(_) => {},
        }
        let limit = config.limit_of(provider);
        let threshold: u32 = limit.failure_threshold();
        if threshold == 0 {
            return Ok(None);
        }
        let key = circuit_key(scope, provider, config);
        let mut circuit = self.circuit(&key);
        let id: u64 = self.probe_sequence.saturating_add(1);
        let grant = circuit.claim(threshold, limit.cooldown_seconds(), now, id);
        let generation: u64 = circuit.generation;
        let kept = key.copy();
        self.put(key, circuit);
        match grant {
            Grant::Closed => Ok(Some(AdmissionLease { generation, probe_id: None, key: kept })),
            Grant::Probe(id) => {
                let next: u64 = self.probe_sequence.wrapping_add(1);
                proof {
                    use_type_invariant(&*self);
                }
                self.probe_sequence = next;
                assert(self@.circuits =~= claim_effect(
                    old(self)@,
                    scope@,
                    provider@,
                    *config,
                    *today,
                    now,
                ).circuits);
                Ok(Some(AdmissionLease { generation, probe_id: Some(id), key: kept }))
            },
            Grant::Refused(verdict) => match refusal(provider, verdict) {
                Err(e) => Err(e),
                Ok(_) => Ok(None),
            },
        }
    }

    /// Gives a probe up that was not carried out.
    pub fn release_probe(&mut self, lease: &AdmissionLease)
        ensures
            final(self)@ == (match lease.probe_id {
                Some(id) if old(self)@.circuits.contains_key(lease.key@) => old(self)@.with(
                    lease.key@,
                    old(self)@.circuits[lease.key@].released(lease.generation, id),
                ),
                _ => old(self)@,
            }),
    {
        if let Some(id) = lease.probe_id {
            if let Some(found) = self.find(&lease.key) {
                let mut circuit = found;
                circuit.release(lease.generation, id);
                self.put(lease.key.copy(), circuit);
            }
        }
    }

    /// Takes the result of a call. Where a lease is enforced, a result without
    /// a lease of the current generation does not count.
    pub fn record_result(
        &mut self,
        scope: &str,
        provider: &str,
        success: bool,
        lease: Option<&AdmissionLease>,
        enforce_lease: bool,
        config: &Config,
        now: u64,
    )
        ensures
            final(self)@ == ({
                let limit = config.limit(provider@);
                let key = result_key(scope@, provider@, lease, *config);
                if limit.threshold() == 0 {
                    old(self)@
                } else {
                    old(self)@.with(
                        key,
                        old(self)@.at(key).recorded(
                            success,
                            lease_parts(lease),
                            enforce_lease,
                            limit.threshold(),
                            limit.cooldown(),
                            now,
                        ),
                    )
                }
            }),
    {
        let limit = config.limit_of(provider);
        let threshold: u32 = limit.failure_threshold();
        if threshold == 0 {
            return;
        }
        let key = match lease {
            Some(l) => l.key.copy(),
            None => circuit_key(scope, provider, config),
        };
        let parts: Option<(u64, Option<u64>)> = match lease {
            Some(l) => Some((l.generation, l.probe_id)),
            None => None,
        };
        let mut circuit = self.circuit(&key);
        circuit.record(success, parts, enforce_lease, threshold, limit.cooldown_seconds(), now);
        self.put(key, circuit);
    }

    /// Brings the circuits of a workspace in line with new settings.
    pub fn reconfigure(&mut self, scope: &str, config: &Config, now: u64)
        ensures
            final(self)@ == reconfigured(old(self)@, scope@, *config, now),
    {
        proof {
            use_type_invariant(&*self);
        }
        let mut taken = Health { entries: Vec::new(), probe_sequence: 0 };
        std::mem::swap(&mut taken, self);
        let Health { mut entries, probe_sequence } = taken;
        let ghost before = entries@;
        let mut i: usize = 0;
        while i < entries.len()
            invariant
                i <= entries@.len() == before.len(),
                forall|j: int|
                    0 <= j < before.len() ==> #[trigger] entries@[j].key@ == before[j].key@,
                forall|j: int| i <= j < before.len() ==> #[trigger] entries@[j] == before[j],
                forall|j: int|
                    0 <= j < i ==> (#[trigger] entries@[j]).circuit == reconfigured_circuit(
                        before[j].key@,
                        before[j].circuit,
                        scope@,
                        *config,
                        now,
                    ),
            decreases entries@.len() - i,
        {
            let current = circuit_key(scope, entries[i].key.provider.as_str(), config);
            let applies = str_eq(entries[i].key.scope.as_str(), scope) && entries[i].key.same(
                &current,
            );
            if applies {
                let limit = config.limit_of(entries[i].key.provider.as_str());
                let threshold: u32 = limit.failure_threshold();
                let mut circuit = entries[i].circuit;
                if threshold == 0 {
                    circuit.switch_off();
                } else {
                    circuit.normalize(threshold, now);
                }
                let key = entries[i].key.copy();
                entries.set(i, Entry { key, circuit });
            }
            i = i + 1;
        }
        let next = Health { entries, probe_sequence };
        proof {
            let target = reconfigured(old(self)@, scope@, *config, now);
            assert forall|k: KeyView| true implies #[trigger] next@.circuits.contains_key(k)
                == target.circuits.contains_key(k) && (next@.circuits.contains_key(k)
                ==> next@.circuits[k] == target.circuits[k]) by {
                if next@.circuits.contains_key(k) {
                    let j = choose|j: int|
                        0 <= j < next.entries@.len() && #[trigger] next.entries@[j].key@ == k;
                    next.lemma_at(j);
                    old(self).lemma_at(j);
                }
                if old(self)@.circuits.contains_key(k) {
                    let j = choose|j: int|
                        0 <= j < old(self).entries@.len() && #[trigger] old(self).entries@[j].key@
                            == k;
                    assert(next.entries@[j].key@ == k);
                }
            }
            assert(next@.circuits =~= target.circuits);
        }
        *self = next;
    }
}

/// How one provider stands. What it cost is told elsewhere.
#[derive(Debug)]
pub struct HealthReport {
    pub provider: String,
    pub consecutive_failures: u32,
    pub circuit_open: bool,
    pub cooldown_remaining_seconds: u64,
    pub today_input: u64,
    pub today_output: u64,
    /// Whether every call of today reported what it used.
    pub usage_complete: bool,
    pub unmetered_calls: u64,
}

/// The report on a provider. A circuit is shown open while it refuses calls, be
/// it for its cooldown or for a probe.
pub open spec fn reported(
    r: HealthReport,
    circuit: Option<Circuit>,
    limit: ProviderLimit,
    usage: ProviderUsage,
    storage_complete: bool,
    now: u64,
) -> bool {
    let elapsed = match circuit {
        Some(c) if c.opened_at is Some => c.open_seconds(now),
        _ => limit.cooldown(),
    };
    let open = match circuit {
        Some(c) => limit.threshold() > 0 && c.consecutive_failures >= limit.threshold() && (elapsed
            < limit.cooldown() || c.half_open_probe is Some),
        None => false,
    };
    &&& r.consecutive_failures == (match circuit {
        Some(c) => c.consecutive_failures,
        None => 0,
    })
    &&& r.circuit_open == open
    &&& r.cooldown_remaining_seconds == (if open && elapsed < limit.cooldown() {
        limit.cooldown() - elapsed
    } else {
        0
    })
    &&& r.today_input == usage.input
    &&& r.today_output == usage.output
    &&& r.usage_complete == (storage_complete && usage.unmetered_calls == 0)
    &&& r.unmetered_calls == usage.unmetered_calls
}

/// The circuit that the workspace has for a provider.
pub open spec fn circuit_for(health: HealthView, scope: Seq<char>, provider: Seq<char>, config: Config) -> Option<Circuit> {
    let key = key_of(scope, provider, config);
    if health.circuits.contains_key(key) {
        Some(health.circuits[key])
    } else {
        None
    }
}

/// A provider to report on: one with limits, with usage today, or with a
/// circuit in this workspace.
pub open spec fn is_reported(
    provider: Seq<char>,
    health: HealthView,
    scope: Seq<char>,
    config: Config,
    today: DayUsage,
) -> bool {
    ||| config.limits.providers@.contains_key(provider)
    ||| today.by_provider@.contains_key(provider)
    ||| circuit_for(health, scope, provider, config) is Some
}

fn keys_of<V>(table: &Table<V>, out: &mut Vec<String>)
    ensures
        forall|k: Seq<char>| #[trigger]
            views(final(out)@).contains(k) <==> views(old(out)@).contains(k)
                || table@.contains_key(k),
{
    let n: usize = table.len();
    let ghost order = table.order();
    let ghost before = views(out@);
    let mut i: usize = 0;
    while i < n
        invariant
            i <= n == order.len(),
            order == table.order(),
            forall|k: Seq<char>| #[trigger]
                views(out@).contains(k) <==> before.contains(k) || order.take(i as int).contains(k),
        decreases n - i,
    {
        let (key, _) = table.entry(i);
        let ghost was = views(out@);
        out.push(key.clone());
        proof {
            assert(views(out@) =~= was.push(key@));
            assert(order.take(i + 1) =~= order.take(i as int).push(key@));
            lemma_push_contains(was, key@);
            lemma_push_contains(order.take(i as int), key@);
        }
        i = i + 1;
    }
    assert(order.take(i as int) =~= order);
}

proof fn lemma_push_contains(list: Seq<Seq<char>>, x: Seq<char>)
    ensures
        forall|k: Seq<char>| #[trigger] list.push(x).contains(k) <==> list.contains(k) || k == x,
{
    assert forall|k: Seq<char>| #[trigger] list.push(x).contains(k) <==> list.contains(k) || k == x by {
        if list.push(x).contains(k) && k != x {
            let i = choose|i: int| 0 <= i < list.push(x).len() && list.push(x)[i] == k;
            assert(list[i] == k);
        }
        if list.contains(k) {
            let i = choose|i: int| 0 <= i < list.len() && list[i] == k;
            assert(list.push(x)[i] == k);
        }
        if k == x {
            assert(list.push(x)[list.len() as int] == k);
        }
    }
}

/// The texts of an ascending list, each once.
fn dedup(list: Vec<String>) -> (r: Vec<String>)
    requires
        ascending(views(list@)),
    ensures
        ascending(views(r@)),
        views(r@).no_duplicates(),
        forall|k: Seq<char>| #[trigger] views(r@).contains(k) <==> views(list@).contains(k),
{
    let mut out: Vec<String> = Vec::new();
    let mut i: usize = 0;
    let ghost all = views(list@);
    while i < list.len()
        invariant
            i <= list@.len(),
            all == views(list@),
            ascending(all),
            ascending(views(out@)),
            views(out@).no_duplicates(),
            forall|k: Seq<char>| #[trigger]
                views(out@).contains(k) <==> all.take(i as int).contains(k),
            i > 0 ==> out@.len() > 0 && views(out@).last() == all[i - 1],
        decreases list@.len() - i,
    {
        let ghost text = all[i as int];
        let same = if out.len() > 0 {
            str_eq(out[out.len() - 1].as_str(), list[i].as_str())
        } else {
            false
        };
        let ghost was = views(out@);
        proof {
            assert(all.take(i + 1) =~= all.take(i as int).push(text));
            lemma_push_contains(all.take(i as int), text);
            lemma_push_contains(was, text);
        }
        if !same {
            out.push(list[i].clone());
            proof {
                assert(views(out@) =~= was.push(text));
                assert forall|a: int, b: int| 0 <= a < b < views(out@).len() implies !crate::text::precedes(
                    #[trigger] views(out@)[b],
                    #[trigger] views(out@)[a],
                ) by {
                    if b == was.len() {
                        assert(was.contains(was[a]));
                        let j = choose|j: int|
                            0 <= j < all.take(i as int).len() && all.take(i as int)[j] == was[a];
                        assert(!crate::text::precedes(all[i as int], all[j]));
                    }
                }
                assert(!was.contains(text)) by {
                    if was.contains(text) {
                        let a = choose|a: int| 0 <= a < was.len() && was[a] == text;
                        let last = was.len() - 1;
                        if a < last {
                            assert(!crate::text::precedes(was[last], was[a]));
                            assert(!crate::text::precedes(all[i as int], all[i - 1]));
                            crate::text::lemma_precedes_total(was[last], text);
                        }
                    }
                }
                assert forall|a: int, b: int|
                    0 <= a < views(out@).len() && 0 <= b < views(out@).len() && a != b implies views(
                    out@,
                )[a] != views(out@)[b] by {
                    if a == was.len() {
                        assert(was.contains(was[b]));
                    } else if b == was.len() {
                        assert(was.contains(was[a]));
                    }
                }
            }
        } else {
            assert(was.contains(text)) by {
                assert(was[was.len() - 1] == text);
            }
        }
        i = i + 1;
    }
    assert(all.take(i as int) =~= all);
    out
}

impl Health {
    fn circuit_providers(&self, scope: &str, config: &Config, out: &mut Vec<String>)
        ensures
            forall|k: Seq<char>| #[trigger]
                views(final(out)@).contains(k) <==> views(old(out)@).contains(k) || circuit_for(
                    self@,
                    scope@,
                    k,
                    *config,
                ) is Some,
    {
        proof {
            use_type_invariant(self);
        }
        let ghost before = views(out@);
        let mut i: usize = 0;
        while i < self.entries.len()
            invariant
                i <= self.entries@.len(),
                forall|k: Seq<char>| #[trigger]
                    views(out@).contains(k) <==> before.contains(k) || exists|j: int|
                        0 <= j < i && #[trigger] self.entries@[j].key@ == key_of(scope@, k, *config),
            decreases self.entries@.len() - i,
        {
            let key = &self.entries[i].key;
            let current = circuit_key(scope, key.provider.as_str(), config);
            let ghost was = views(out@);
            if str_eq(key.scope.as_str(), scope) && key.same(&current) {
                out.push(key.provider.clone());
                proof {
                    assert(views(out@) =~= was.push(key.provider@));
                    lemma_push_contains(was, key.provider@);
                }
            }
            proof {
                assert forall|k: Seq<char>| #[trigger] views(out@).contains(k) <==> before.contains(k)
                    || exists|j: int|
                    0 <= j < i + 1 && #[trigger] self.entries@[j].key@ == key_of(scope@, k, *config) by {
                    assert(was.contains(k) <==> before.contains(k) || exists|j: int|
                        0 <= j < i && #[trigger] self.entries@[j].key@ == key_of(scope@, k, *config));
                    if self.entries@[i as int].key@ == key_of(scope@, k, *config) {
                        assert(key.provider@ == k);
                    }
                }
            }
            i = i + 1;
        }
        proof {
            assert forall|k: Seq<char>| #[trigger] views(out@).contains(k) <==> before.contains(k)
                || circuit_for(self@, scope@, k, *config) is Some by {
                let key = key_of(scope@, k, *config);
                if exists|j: int| 0 <= j < i && #[trigger] self.entries@[j].key@ == key {
                    let j = choose|j: int| 0 <= j < i && #[trigger] self.entries@[j].key@ == key;
                    self.lemma_at(j);
                }
            }
        }
    }

    /// How the providers stand, in the order of their names. `storage_complete`
    /// says whether today's usage could be read in full.
    pub fn reports(
        &self,
        scope: &str,
        config: &Config,
        today: &DayUsage,
        storage_complete: bool,
        now: u64,
    ) -> (r: Vec<HealthReport>)
        ensures
            ({
                let names = r@.map_values(|h: HealthReport| h.provider@);
                &&& ascending(names)
                &&& names.no_duplicates()
                &&& forall|k: Seq<char>| #[trigger]
                    names.contains(k) <==> is_reported(k, self@, scope@, *config, *today)
            }),
            forall|i: int|
                0 <= i < r@.len() ==> reported(
                    #[trigger] r@[i],
                    circuit_for(self@, scope@, r@[i].provider@, *config),
                    config.limit(r@[i].provider@),
                    today.of(r@[i].provider@),
                    storage_complete,
                    now,
                ),
    {
        let mut names: Vec<String> = Vec::new();
        keys_of(&config.limits.providers, &mut names);
        keys_of(&today.by_provider, &mut names);
        self.circuit_providers(scope, config, &mut names);
        let ghost all = views(names@);
        assert forall|k: Seq<char>| #[trigger] all.contains(k) <==> is_reported(
            k,
            self@,
            scope@,
            *config,
            *today,
        ) by {}
        let sorted = sort(names);
        proof {
            all.to_multiset_ensures();
            views(sorted@).to_multiset_ensures();
            assert forall|k: Seq<char>| #[trigger] views(sorted@).contains(k) <==> all.contains(k) by {
                assert(views(sorted@).contains(k) <==> views(sorted@).to_multiset().count(k) > 0);
                assert(all.contains(k) <==> all.to_multiset().count(k) > 0);
            }
        }
        let listed = dedup(sorted);
        let mut out: Vec<HealthReport> = Vec::new();
        let mut i: usize = 0;
        while i < listed.len()
            invariant
                i <= listed@.len(),
                out@.len() == i,
                forall|j: int| 0 <= j < i ==> (#[trigger] out@[j]).provider@ == listed@[j]@,
                forall|j: int|
                    0 <= j < i ==> reported(
                        #[trigger] out@[j],
                        circuit_for(self@, scope@, out@[j].provider@, *config),
                        config.limit(out@[j].provider@),
                        today.of(out@[j].provider@),
                        storage_complete,
                        now,
                    ),
            decreases listed@.len() - i,
        {
            let provider = listed[i].as_str();
            let limit = config.limit_of(provider);
            let usage = today.usage_of(provider);
            let key = circuit_key(scope, provider, config);
            let circuit = self.find(&key);
            let threshold: u32 = limit.failure_threshold();
            let cooldown: u64 = limit.cooldown_seconds();
            let mut elapsed: u64 = cooldown;
            let mut failures: u32 = 0;
            let mut probing: bool = false;
            if let Some(c) = circuit {
                failures = c.consecutive_failures;
                probing = c.half_open_probe.is_some();
                if c.opened_at.is_some() {
                    elapsed = c.elapsed(now);
                }
            }
            let open = threshold > 0 && circuit.is_some() && failures >= threshold && (elapsed
                < cooldown || probing);
            out.push(
                HealthReport {
                    provider: listed[i].clone(),
                    consecutive_failures: failures,
                    circuit_open: open,
                    cooldown_remaining_seconds: if open {
                        cooldown.saturating_sub(elapsed)
                    } else {
                        0
                    },
                    today_input: usage.input,
                    today_output: usage.output,
                    usage_complete: storage_complete && usage.unmetered_calls == 0,
                    unmetered_calls: usage.unmetered_calls,
                },
            );
            i = i + 1;
        }
        assert(out@.map_values(|h: HealthReport| h.provider@) =~= views(listed@));
        out
    }
}

/// Switching the breaker off for a workspace and on again admits calls as if
/// nothing had failed before.
pub proof fn law_reenabled_provider_is_eligible(
    health: HealthView,
    scope: Seq<char>,
    provider: Seq<char>,
    off: Config,
    on: Config,
    now: u64,
)
    requires
        off.limit(provider).threshold() == 0,
        key_of(scope, provider, off) == key_of(scope, provider, on),
    ensures
        ({
            let after = reconfigured(reconfigured(health, scope, off, now), scope, on, now);
            let limit = on.limit(provider);
            after.at(key_of(scope, provider, on)).verdict(limit.threshold(), limit.cooldown(), now)
                == Verdict::Pass
        }),
{
}

/// Settings of one workspace do not touch the circuits of another.
pub proof fn law_workspaces_are_separate(
    health: HealthView,
    scope: Seq<char>,
    config: Config,
    now: u64,
    key: KeyView,
)
    requires
        key.scope != scope,
    ensures
        reconfigured(health, scope, config, now).at(key) == health.at(key),
{
}

/// A budget refuses whenever today's usage cannot be read, or holds calls whose
/// cost is not known.
pub proof fn law_budgets_fail_closed(provider: Seq<char>, config: Config, today: Today)
    requires
        has_budget(provider, config),
        today.usage is Err || today.usage->Ok_0.of(provider).unmetered_calls > 0 && config.limit(
            provider,
        ).has_cost_budget,
    ensures
        budget_refusal(provider, config, today) is Some,
{
}

proof fn lemma_unknown_calls(order: Seq<Seq<char>>, usage: Map<Seq<char>, ProviderUsage>)
    ensures
        unknown_calls(order, usage).len() > 0 <==> exists|i: int|
            0 <= i < order.len() && usage[#[trigger] order[i]].unmetered_calls > 0,
    decreases order.len(),
{
    if order.len() > 0 {
        let init = order.drop_last();
        lemma_unknown_calls(init, usage);
        if unknown_calls(init, usage).len() > 0 {
            let i = choose|i: int|
                0 <= i < init.len() && usage[#[trigger] init[i]].unmetered_calls > 0;
            assert(order[i] == init[i]);
        }
        if usage[order.last()].unmetered_calls > 0 {
            assert(usage[order[order.len() - 1]].unmetered_calls > 0);
        }
        if exists|i: int| 0 <= i < order.len() && usage[#[trigger] order[i]].unmetered_calls > 0 {
            let i = choose|i: int|
                0 <= i < order.len() && usage[#[trigger] order[i]].unmetered_calls > 0;
            if i < init.len() {
                assert(usage[init[i]].unmetered_calls > 0);
            }
        }
    }
}

/// The budget of tokens refuses a call exactly where today's input and output
/// together reach it, or where some call of today reported no usage.
pub proof fn law_token_budget_is_kept(budget: Option<u64>, today: DayUsage)
    ensures
        budget is None ==> token_refusal(budget, today) is None,
        budget matches Some(limit) ==> (token_refusal(budget, today) is Some <==> (today.input
            + today.output >= limit || exists|i: int|
            0 <= i < today.by_provider.order().len()
                && today.by_provider@[#[trigger] today.by_provider.order()[i]].unmetered_calls > 0)),
{
    lemma_unknown_calls(today.by_provider.order(), today.by_provider@);
}

/// The budget of cost refuses a call exactly where there is one and the cost is
/// unknown or not within it.
pub proof fn law_cost_budget_is_kept(
    provider: Seq<char>,
    limit: ProviderLimit,
    usage: ProviderUsage,
    cost: CostCheck,
)
    ensures
        cost_refusal(provider, limit, usage, cost) is None <==> !limit.has_cost_budget || (
        usage.unmetered_calls == 0 && cost is Within),
{
}

/// A call is refused for its budget exactly where the tokens or the cost are spent
/// or unknown; without a budget today's usage does not matter.
pub proof fn law_budgets_decide_together(provider: Seq<char>, config: Config, today: Today)
    ensures
        !has_budget(provider, config) ==> budget_refusal(provider, config, today) is None,
        has_budget(provider, config) && today.usage is Ok ==> (budget_refusal(
            provider,
            config,
            today,
        ) is None <==> token_refusal(config.limits.daily_token_budget, today.usage->Ok_0) is None
            && cost_refusal(
            provider,
            config.limit(provider),
            today.usage->Ok_0.of(provider),
            today.cost(provider),
        ) is None),
        has_budget(provider, config) <==> config.limits.daily_token_budget is Some || config.limit(
            provider,
        ).has_cost_budget,
{
}

/// A claim is refused exactly where the budget or the circuit refuses it. What it
/// hands out is a lease on the provider's own circuit, in its scope and current
/// generation, and no other circuit changes.
pub proof fn law_claim_is_on_its_own_circuit(
    health: HealthView,
    scope: Seq<char>,
    provider: Seq<char>,
    config: Config,
    today: Today,
    now: u64,
    other: KeyView,
)
    ensures
        ({
            let limit = config.limit(provider);
            let key = key_of(scope, provider, config);
            let grant = health.at(key).grant(
                limit.threshold(),
                limit.cooldown(),
                now,
                health.next_probe(),
            );
            let after = claim_effect(health, scope, provider, config, today, now);
            &&& key.scope == scope && key.provider == provider
            &&& claim_result(health, scope, provider, config, today, now) is Err <==> budget_refusal(
                provider,
                config,
                today,
            ) is Some || limit.threshold() > 0 && grant is Refused
            &&& claim_result(health, scope, provider, config, today, now) matches Ok(Some(lease)) ==> {
                &&& lease.2 == key
                &&& lease.0 == after.at(key).generation
                &&& lease.1 is Some <==> grant is Probe
                &&& lease.1 is Some ==> after.at(key).half_open_probe == lease.1
            }
            &&& other != key ==> after.at(other) == health.at(other)
            &&& budget_refusal(provider, config, today) is Some ==> after == health
        }),
{
}

/// A provider that is not the user's own has one circuit for each scope; one of
/// the user's own has another for each endpoint.
pub proof fn law_endpoints_have_their_own_circuits(
    scope: Seq<char>,
    provider: Seq<char>,
    config: Config,
)
    ensures
        !starts(provider, "custom:"@) ==> key_of(scope, provider, config).endpoint is None,
        starts(provider, "custom:"@) ==> key_of(scope, provider, config).endpoint is Some,
        starts(provider, "custom:"@) && config.custom_providers@.contains_key(
            provider.subrange(7, provider.len() as int),
        ) ==> {
            let own = config.custom_providers@[provider.subrange(7, provider.len() as int)];
            key_of(scope, provider, config).endpoint == Some(
                own.protocol@ + "|"@ + trimmed_of(own.base_url@, '/'),
            )
        },
{
    reveal_strlit("custom:");
    assert("custom:"@.len() == 7);
}

/// A report says what its provider used today and how it failed. Its circuit is
/// called open exactly where a call would be refused or wait for the probe, and what
/// is left of the cooldown is what the refusal says.
pub proof fn law_health_is_reported(
    r: HealthReport,
    circuit: Option<Circuit>,
    limit: ProviderLimit,
    usage: ProviderUsage,
    storage_complete: bool,
    now: u64,
)
    requires
        reported(r, circuit, limit, usage, storage_complete, now),
        circuit matches Some(c) ==> (c.consecutive_failures >= limit.threshold() ==> c.opened_at is Some),
    ensures
        r.today_input == usage.input,
        r.today_output == usage.output,
        r.unmetered_calls == usage.unmetered_calls,
        r.usage_complete <==> storage_complete && usage.unmetered_calls == 0,
        circuit is None ==> !r.circuit_open && r.consecutive_failures == 0,
        !r.circuit_open ==> r.cooldown_remaining_seconds == 0,
        circuit matches Some(c) ==> {
            let verdict = c.verdict(limit.threshold(), limit.cooldown(), now);
            &&& r.consecutive_failures == c.consecutive_failures
            &&& r.circuit_open <==> !(verdict is Pass)
            &&& verdict matches Verdict::OpenFor(seconds) ==> r.cooldown_remaining_seconds == seconds
        },
{
}

/// A provider is reported where it is configured, was used today or has a circuit of
/// this workspace, and nowhere else.
pub proof fn law_known_providers_are_reported(
    provider: Seq<char>,
    health: HealthView,
    scope: Seq<char>,
    config: Config,
    today: DayUsage,
)
    ensures
        is_reported(provider, health, scope, config, today) <==> {
            ||| config.limits.providers@.contains_key(provider)
            ||| today.by_provider@.contains_key(provider)
            ||| health.circuits.contains_key(key_of(scope, provider, config))
        },
        circuit_for(health, scope, provider, config) matches Some(c) ==> health.at(
            key_of(scope, provider, config),
        ) == c,
{
}

/// What a provider used today is its own entry; one that was not used used nothing.
pub proof fn law_usage_is_its_own(today: DayUsage, provider: Seq<char>)
    ensures
        today.by_provider@.contains_key(provider) ==> today.of(provider)
            == today.by_provider@[provider],
        !today.by_provider@.contains_key(provider) ==> today.of(provider).input == 0 && today.of(
            provider,
        ).output == 0 && today.of(provider).unmetered_calls == 0,
{
}

} // verus!
