//! From a role to a provider, a model and an account that can be called now.

use crate::auth::{
    account_id, account_key, account_name, accounts_of, law_accounts_are_listed, name_of_account, sorted_accounts,
    AuthStore, CredentialView,
};
use crate::config::{Config, RoleBinding};
use crate::llm::mrm::manager::{record_views, DispatchRecord, ModelResourceManager, RecordView, Shared};
use crate::llm::mrm_health::Today;
use crate::llm::retry::{effective, opt_str};
use crate::text::{
    behind, cat2, ends, holds, lemma_precedes_total, opt_clone, opt_view, precedes, starts, str_eq, strip_prefix,
    views,
};
use vstd::prelude::*;

verus! {

/// How many dispatches the history keeps.
pub const HISTORY_LIMIT: usize = 50;

/// What a role came down to.
#[derive(Debug)]
pub struct Resolved {
    pub provider: String,
    pub model: String,
    /// The account that was chosen; none stands for the default one.
    pub account: Option<String>,
    /// The role that was asked for, where another one serves it.
    pub degraded_from: Option<String>,
}

#[verifier::ext_equal]
pub struct ResolvedView {
    pub provider: Seq<char>,
    pub model: Seq<char>,
    pub account: Option<Seq<char>>,
    pub degraded_from: Option<Seq<char>>,
}

impl View for Resolved {
    type V = ResolvedView;

    open spec fn view(&self) -> ResolvedView {
        ResolvedView {
            provider: self.provider@,
            model: self.model@,
            account: opt_view(self.account),
            degraded_from: opt_view(self.degraded_from),
        }
    }
}

impl Resolved {
    /// The key that the account's limits go by.
    pub fn slot_key(&self) -> (r: String)
        ensures
            r@ == account_key(self@.provider, effective(self@.account)),
    {
        match &self.account {
            Some(account) => account_id(self.provider.as_str(), account.as_str()),
            None => account_id(self.provider.as_str(), "default"),
        }
    }
}

/// The role that a role's fallback names.
pub open spec fn fallback_of(roles: Map<Seq<char>, RoleBinding>, role: Seq<char>) -> Option<Seq<char>> {
    if roles.contains_key(role) {
        opt_view(roles[role].fallback)
    } else {
        None
    }
}

/// The chain with up to `left` more fallbacks; it never comes back to a role.
pub open spec fn followed(roles: Map<Seq<char>, RoleBinding>, chain: Seq<Seq<char>>, left: nat) -> Seq<Seq<char>>
    decreases left,
{
    if left == 0 {
        chain
    } else {
        match fallback_of(roles, chain.last()) {
            None => chain,
            Some(next) => if chain.contains(next) {
                chain
            } else {
                followed(roles, chain.push(next), (left - 1) as nat)
            },
        }
    }
}

/// The roles that stand in for a role without a configured fallback.
pub open spec fn stand_ins(role: Seq<char>) -> Seq<Seq<char>> {
    if role == "thinking"@ {
        seq!["planning"@, "research"@]
    } else if role == "planning"@ {
        seq!["thinking"@, "research"@]
    } else if role == "review"@ {
        seq!["thinking"@, "research"@]
    } else {
        Seq::empty()
    }
}

/// `names` without those that are no configured role.
pub open spec fn configured(names: Seq<Seq<char>>, roles: Map<Seq<char>, RoleBinding>) -> Seq<Seq<char>>
    decreases names.len(),
{
    if names.len() == 0 {
        Seq::empty()
    } else {
        let head = configured(names.drop_last(), roles);
        if roles.contains_key(names.last()) {
            head.push(names.last())
        } else {
            head
        }
    }
}

/// The role that a request starts from: an unknown one falls back to
/// `execution`.
pub open spec fn root_role(roles: Map<Seq<char>, RoleBinding>, role: Seq<char>) -> Seq<char> {
    if !roles.contains_key(role) && roles.contains_key("execution"@) {
        "execution"@
    } else {
        role
    }
}

/// The roles to try, in order.
pub open spec fn chain_of(roles: Map<Seq<char>, RoleBinding>, role: Seq<char>) -> Seq<Seq<char>> {
    let root = root_role(roles, role);
    let chain = followed(roles, seq![root], 3);
    if chain.len() > 1 {
        chain
    } else {
        chain + configured(stand_ins(root), roles)
    }
}

fn push_text(list: &mut Vec<String>, text: &str)
    ensures
        views(final(list)@) == views(old(list)@).push(text@),
        final(list)@.len() == old(list)@.len() + 1,
{
    let ghost before = list@;
    list.push(text.to_owned());
    assert(views(list@) =~= views(before).push(text@));
}

fn push_configured(config: &Config, chain: &mut Vec<String>, a: &str, b: &str)
    ensures
        views(final(chain)@) == views(old(chain)@) + configured(
            seq![a@, b@],
            config.roles@,
        ),
{
    let ghost names = seq![a@, b@];
    let ghost roles = config.roles@;
    proof {
        assert(names.drop_last() =~= seq![a@]);
        assert(seq![a@].drop_last() =~= Seq::<Seq<char>>::empty());
        assert(configured(Seq::<Seq<char>>::empty(), roles) =~= Seq::<Seq<char>>::empty());
        reveal_with_fuel(configured, 3);
    }
    if config.roles.contains(a) {
        push_text(chain, a);
    }
    if config.roles.contains(b) {
        push_text(chain, b);
    }
    assert(views(chain@) =~= views(old(chain)@) + configured(names, roles));
}

pub fn role_chain(config: &Config, role: &str) -> (r: Vec<String>)
    ensures
        views(r@) == chain_of(config.roles@, role@),
{
    let ghost roles = config.roles@;
    let root = if !config.roles.contains(role) && config.roles.contains("execution") {
        "execution"
    } else {
        role
    };
    let mut chain: Vec<String> = Vec::new();
    push_text(&mut chain, root);
    assert(views(chain@) =~= seq![root@]);
    let mut hops: usize = 0;
    let mut open: bool = true;
    while open && hops < 3
        invariant
            hops <= 3,
            roles == config.roles@,
            chain@.len() > 0,
            open ==> followed(roles, seq![root@], 3) == followed(
                roles,
                views(chain@),
                (3 - hops) as nat,
            ),
            !open ==> followed(roles, seq![root@], 3) == views(chain@),
        decreases 3 - hops, if open { 1int } else { 0int },
    {
        let last = chain[chain.len() - 1].clone();
        assert(views(chain@).last() == last@);
        let next: Option<String> = match config.roles.get(last.as_str()) {
            Some(binding) => opt_clone(&binding.fallback),
            None => None,
        };
        match next {
            None => {
                open = false;
            },
            Some(name) => {
                if holds(&chain, name.as_str()) {
                    open = false;
                } else {
                    push_text(&mut chain, name.as_str());
                    hops = hops + 1;
                }
            },
        }
    }
    assert(views(chain@).len() == chain@.len());
    if chain.len() > 1 {
        return chain;
    }
    if str_eq(root, "thinking") {
        push_configured(config, &mut chain, "planning", "research");
    } else if str_eq(root, "planning") {
        push_configured(config, &mut chain, "thinking", "research");
    } else if str_eq(root, "review") {
        push_configured(config, &mut chain, "thinking", "research");
    } else {
        assert(views(chain@) =~= views(chain@) + configured(stand_ins(root@), roles));
    }
    chain
}

/// The accounts that can serve a binding, each with its key: a pinned account
/// only where it is stored, and a provider without credentials only where none
/// are stored at all.
pub open spec fn candidates_of(
    provider: Seq<char>,
    account: Option<Seq<char>>,
    store: Map<Seq<char>, CredentialView>,
    local_free: bool,
) -> Seq<(Seq<char>, Option<Seq<char>>)> {
    let keys = sorted_accounts(store, provider);
    if local_free {
        seq![(provider, None)]
    } else if account is Some {
        let key = account_key(provider, account->0);
        if store.contains_key(key) {
            seq![(key, account)]
        } else {
            Seq::empty()
        }
    } else if keys.len() == 0 {
        if forall|k: Seq<char>| !store.contains_key(k) {
            seq![(provider, None)]
        } else {
            Seq::empty()
        }
    } else {
        keys.map_values(|key: Seq<char>| (key, behind(key, provider + ":"@)))
    }
}

pub open spec fn pair_views(list: Seq<(String, Option<String>)>) -> Seq<(Seq<char>, Option<Seq<char>>)> {
    list.map_values(|p: (String, Option<String>)| (p.0@, opt_view(p.1)))
}

pub fn candidates(binding: &RoleBinding, store: &AuthStore, local_free: bool) -> (r: Vec<
    (String, Option<String>),
>)
    ensures
        pair_views(r@) == candidates_of(
            binding.provider@,
            opt_view(binding.account),
            store@,
            local_free,
        ),
{
    let mut out: Vec<(String, Option<String>)> = Vec::new();
    let provider = binding.provider.as_str();
    let ghost target = candidates_of(binding.provider@, opt_view(binding.account), store@, local_free);
    if local_free {
        out.push((binding.provider.clone(), None));
        assert(pair_views(out@) =~= target);
        return out;
    }
    if let Some(account) = &binding.account {
        let key = account_id(provider, account.as_str());
        if store.contains(key.as_str()) {
            out.push((key, Some(account.clone())));
        }
        assert(pair_views(out@) =~= target);
        return out;
    }
    let keys = accounts_of(store, provider);
    assert(views(keys@).len() == keys@.len());
    if keys.len() == 0 {
        if store.is_empty() {
            out.push((binding.provider.clone(), None));
        }
        assert(pair_views(out@) =~= target);
        return out;
    }
    let prefix = cat2(provider, ":");
    let mut i: usize = 0;
    while i < keys.len()
        invariant
            i <= keys@.len(),
            prefix@ == binding.provider@ + ":"@,
            out@.len() == i,
            forall|j: int|
                0 <= j < i ==> (#[trigger] out@[j]).0@ == keys@[j]@ && opt_view(out@[j].1) == behind(
                    keys@[j]@,
                    prefix@,
                ),
        decreases keys@.len() - i,
    {
        let account = strip_prefix(keys[i].as_str(), prefix.as_str());
        out.push((keys[i].clone(), account));
        i = i + 1;
    }
    assert(pair_views(out@) =~= target);
    out
}

impl ModelResourceManager {
    /// A candidate can be called now: it is admitted, a slot is free, and its
    /// window is not full.
    pub open spec fn open(self, shared: Shared, provider: Seq<char>, key: Seq<char>, today: Today, now: u64) -> bool {
        &&& self.refusal(shared.health@, provider, today, now) is None
        &&& self.has_free_slot(shared.pools@, provider)
        &&& !self.window_full(shared.rpm@, key, now)
    }

    pub fn candidate_open(&self, shared: &Shared, provider: &str, key: &str, today: &Today, now: u64) -> (r:
        bool)
        ensures
            r == self.open(*shared, provider@, key@, *today, now),
    {
        self.admission(shared, provider, today, now).is_ok() && self.available(shared, provider)
            && !self.rpm_blocked(shared, key, now)
    }

    /// The first candidate that can be called, by its account.
    pub open spec fn first_open(
        self,
        shared: Shared,
        provider: Seq<char>,
        list: Seq<(Seq<char>, Option<Seq<char>>)>,
        today: Today,
        now: u64,
    ) -> Option<Option<Seq<char>>>
        decreases list.len(),
    {
        if list.len() == 0 {
            None
        } else if self.open(shared, provider, list[0].0, today, now) {
            Some(list[0].1)
        } else {
            self.first_open(shared, provider, list.subrange(1, list.len() as int), today, now)
        }
    }

    /// The first role of the chain that a candidate can serve.
    pub open spec fn first_role(
        self,
        shared: Shared,
        role: Seq<char>,
        chain: Seq<Seq<char>>,
        store: Map<Seq<char>, CredentialView>,
        local_free: Seq<Seq<char>>,
        today: Today,
        now: u64,
    ) -> Option<ResolvedView>
        decreases chain.len(),
    {
        if chain.len() == 0 {
            None
        } else {
            let rest = self.first_role(
                shared,
                role,
                chain.subrange(1, chain.len() as int),
                store,
                local_free,
                today,
                now,
            );
            if !self.config.roles@.contains_key(chain[0]) {
                rest
            } else {
                let binding = self.config.roles@[chain[0]];
                let list = candidates_of(
                    binding.provider@,
                    opt_view(binding.account),
                    store,
                    local_free.contains(binding.provider@),
                );
                match self.first_open(shared, binding.provider@, list, today, now) {
                    Some(account) => Some(
                        ResolvedView {
                            provider: binding.provider@,
                            model: binding.model@,
                            account,
                            degraded_from: if chain[0] != role {
                                Some(role)
                            } else {
                                None
                            },
                        },
                    ),
                    None => rest,
                }
            }
        }
    }

    fn pick(
        &self,
        shared: &Shared,
        provider: &str,
        list: &Vec<(String, Option<String>)>,
        today: &Today,
        now: u64,
    ) -> (r: Option<Option<String>>)
        ensures
            (match r {
                Some(account) => Some(opt_view(account)),
                None => None,
            }) == self.first_open(*shared, provider@, pair_views(list@), *today, now),
    {
        let ghost all = pair_views(list@);
        let mut i: usize = 0;
        assert(all.subrange(0, all.len() as int) =~= all);
        while i < list.len()
            invariant
                i <= list@.len(),
                all == pair_views(list@),
                self.first_open(*shared, provider@, all, *today, now) == self.first_open(
                    *shared,
                    provider@,
                    all.subrange(i as int, all.len() as int),
                    *today,
                    now,
                ),
            decreases list@.len() - i,
        {
            let ghost rest = all.subrange(i as int, all.len() as int);
            let (key, account) = &list[i];
            assert(rest[0] == (key@, opt_view(*account)));
            if self.candidate_open(shared, provider, key.as_str(), today, now) {
                return Some(opt_clone(account));
            }
            assert(rest.subrange(1, rest.len() as int) =~= all.subrange(i + 1, all.len() as int));
            i = i + 1;
        }
        None
    }

    /// What the role comes down to now; nothing is recorded. `local_free` names
    /// the providers that need no credential.
    pub fn peek(
        &self,
        shared: &Shared,
        role: &str,
        store: &AuthStore,
        local_free: &Vec<String>,
        today: &Today,
        now: u64,
    ) -> (r: Option<Resolved>)
        ensures
            (match r {
                Some(resolved) => Some(resolved@),
                None => None,
            }) == self.first_role(
                *shared,
                role@,
                chain_of(self.config.roles@, role@),
                store@,
                views(local_free@),
                *today,
                now,
            ),
    {
        let chain = role_chain(&self.config, role);
        let ghost all = views(chain@);
        let mut i: usize = 0;
        assert(all.subrange(0, all.len() as int) =~= all);
        while i < chain.len()
            invariant
                i <= chain@.len(),
                all == views(chain@),
                all == chain_of(self.config.roles@, role@),
                self.first_role(
                    *shared,
                    role@,
                    all,
                    store@,
                    views(local_free@),
                    *today,
                    now,
                ) == self.first_role(
                    *shared,
                    role@,
                    all.subrange(i as int, all.len() as int),
                    store@,
                    views(local_free@),
                    *today,
                    now,
                ),
            decreases chain@.len() - i,
        {
            let ghost rest = all.subrange(i as int, all.len() as int);
            assert(rest[0] == chain@[i as int]@);
            assert(rest.subrange(1, rest.len() as int) =~= all.subrange(i + 1, all.len() as int));
            if let Some(binding) = self.config.roles.get(chain[i].as_str()) {
                let free = holds(local_free, binding.provider.as_str());
                let list = candidates(binding, store, free);
                let found = self.pick(shared, binding.provider.as_str(), &list, today, now);
                if let Some(account) = found {
                    let degraded_from = if str_eq(chain[i].as_str(), role) {
                        None
                    } else {
                        Some(role.to_owned())
                    };
                    return Some(
                        Resolved {
                            provider: binding.provider.clone(),
                            model: binding.model.clone(),
                            account,
                            degraded_from,
                        },
                    );
                }
            }
            i = i + 1;
        }
        None
    }

    /// What the role comes down to now, recorded as a dispatch at `at`.
    pub fn resolve(
        &self,
        shared: &mut Shared,
        role: &str,
        store: &AuthStore,
        local_free: &Vec<String>,
        today: &Today,
        now: u64,
        at: u64,
    ) -> (r: Option<Resolved>)
        ensures
            ({
                let found = self.first_role(
                    *old(shared),
                    role@,
                    chain_of(self.config.roles@, role@),
                    store@,
                    views(local_free@),
                    *today,
                    now,
                );
                &&& (match r {
                    Some(resolved) => Some(resolved@),
                    None => None,
                }) == found
                &&& record_views(final(shared).history@) == (match found {
                    Some(resolved) => recorded(
                        record_views(old(shared).history@),
                        RecordView {
                            role: role@,
                            provider: resolved.provider,
                            model: resolved.model,
                            account: resolved.account,
                            degraded_from: resolved.degraded_from,
                            at,
                        },
                    ),
                    None => record_views(old(shared).history@),
                })
            }),
            final(shared).pools@ == old(shared).pools@,
            final(shared).rpm@ == old(shared).rpm@,
            final(shared).health@ == old(shared).health@,
    {
        let found = self.peek(&*shared, role, store, local_free, today, now);
        if let Some(resolved) = &found {
            let record = DispatchRecord {
                role: role.to_owned(),
                provider: resolved.provider.clone(),
                model: resolved.model.clone(),
                account: opt_clone(&resolved.account),
                degraded_from: opt_clone(&resolved.degraded_from),
                at,
            };
            let ghost before = shared.history@;
            let ghost d = record@;
            shared.history.push(record);
            assert(record_views(shared.history@) =~= record_views(before).push(d));
            if shared.history.len() > HISTORY_LIMIT {
                let ghost full = shared.history@;
                shared.history.remove(0);
                assert(record_views(shared.history@) =~= record_views(full).subrange(
                    1,
                    full.len() as int,
                ));
            }
        }
        found
    }

    /// The first other account of the provider that can be called.
    pub open spec fn other_open(
        self,
        shared: Shared,
        provider: Seq<char>,
        keys: Seq<Seq<char>>,
        current: Seq<char>,
        today: Today,
        now: u64,
    ) -> Option<Seq<char>>
        decreases keys.len(),
    {
        if keys.len() == 0 {
            None
        } else {
            let name = crate::auth::account_name(keys[0], provider);
            if name != current && self.open(shared, provider, keys[0], today, now) {
                Some(name)
            } else {
                self.other_open(
                    shared,
                    provider,
                    keys.subrange(1, keys.len() as int),
                    current,
                    today,
                    now,
                )
            }
        }
    }

    /// Another account of the same provider that can be called now.
    pub fn rotate_account(
        &self,
        shared: &Shared,
        provider: &str,
        store: &AuthStore,
        current: Option<&str>,
        today: &Today,
        now: u64,
    ) -> (r: Option<String>)
        ensures
            opt_view(r) == self.other_open(
                *shared,
                provider@,
                sorted_accounts(store@, provider@),
                effective(opt_str(current)),
                *today,
                now,
            ),
    {
        let keys = accounts_of(store, provider);
        let own = match current {
            Some(name) => name,
            None => "default",
        };
        let ghost all = views(keys@);
        let mut i: usize = 0;
        assert(all.subrange(0, all.len() as int) =~= all);
        while i < keys.len()
            invariant
                i <= keys@.len(),
                all == views(keys@),
                all == sorted_accounts(store@, provider@),
                own@ == effective(opt_str(current)),
                self.other_open(*shared, provider@, all, own@, *today, now) == self.other_open(
                    *shared,
                    provider@,
                    all.subrange(i as int, all.len() as int),
                    own@,
                    *today,
                    now,
                ),
            decreases keys@.len() - i,
        {
            let ghost rest = all.subrange(i as int, all.len() as int);
            assert(rest[0] == keys@[i as int]@);
            let name = name_of_account(keys[i].as_str(), provider);
            if !str_eq(name.as_str(), own) && self.candidate_open(
                shared,
                provider,
                keys[i].as_str(),
                today,
                now,
            ) {
                return Some(name);
            }
            assert(rest.subrange(1, rest.len() as int) =~= all.subrange(i + 1, all.len() as int));
            i = i + 1;
        }
        None
    }
}

/// The history with one dispatch more; the oldest goes where there are too
/// many.
pub open spec fn recorded(history: Seq<RecordView>, record: RecordView) -> Seq<RecordView> {
    let all = history.push(record);
    if all.len() > HISTORY_LIMIT {
        all.subrange(1, all.len() as int)
    } else {
        all
    }
}

/// The dispatches, the newest first.
pub fn history(shared: &Shared) -> (r: Vec<DispatchRecord>)
    ensures
        record_views(r@) == record_views(shared.history@).reverse(),
{
    let mut out: Vec<DispatchRecord> = Vec::new();
    let n: usize = shared.history.len();
    let ghost target = record_views(shared.history@).reverse();
    let mut i: usize = n;
    while i > 0
        invariant
            i <= n == shared.history@.len(),
            target == record_views(shared.history@).reverse(),
            record_views(out@) == target.take(n - i),
        decreases i,
    {
        i = i - 1;
        let ghost before = out@;
        out.push(shared.history[i].copy());
        assert(record_views(out@) =~= record_views(before).push(shared.history@[i as int]@));
        assert(target.take(n - i) =~= target.take(n - i - 1).push(target[n - i - 1]));
    }
    assert(target.take(n as int) =~= target);
    out
}

/// The history never grows beyond its limit.
pub proof fn law_history_is_bounded(history: Seq<RecordView>, record: RecordView)
    requires
        history.len() <= HISTORY_LIMIT,
    ensures
        recorded(history, record).len() <= HISTORY_LIMIT,
        recorded(history, record).last() == record,
{
}

proof fn lemma_followed(roles: Map<Seq<char>, RoleBinding>, chain: Seq<Seq<char>>, left: nat)
    requires
        chain.len() > 0,
        chain.no_duplicates(),
    ensures
        followed(roles, chain, left).no_duplicates(),
        chain.len() <= followed(roles, chain, left).len() <= chain.len() + left,
        followed(roles, chain, left)[0] == chain[0],
    decreases left,
{
    if left > 0 {
        if let Some(next) = fallback_of(roles, chain.last()) {
            if !chain.contains(next) {
                assert(chain.push(next).no_duplicates());
                lemma_followed(roles, chain.push(next), (left - 1) as nat);
            }
        }
    }
}

/// A chain of configured fallbacks starts with the role itself, names no role
/// twice, and ends after three.
pub proof fn law_fallbacks_end(roles: Map<Seq<char>, RoleBinding>, root: Seq<char>)
    ensures
        followed(roles, seq![root], 3).no_duplicates(),
        followed(roles, seq![root], 3).len() <= 4,
        followed(roles, seq![root], 3)[0] == root,
{
    lemma_followed(roles, seq![root], 3);
}

/// The three things that let a call on a key through now.
pub open spec fn callable(m: ModelResourceManager, shared: Shared, provider: Seq<char>, key: Seq<char>, today: Today, now: u64) -> bool {
    &&& m.refusal(shared.health@, provider, today, now) is None
    &&& m.has_free_slot(shared.pools@, provider)
    &&& !m.window_full(shared.rpm@, key, now)
}

/// A stored account of the provider.
pub open spec fn stored(store: Map<Seq<char>, CredentialView>, key: Seq<char>, provider: Seq<char>) -> bool {
    store.contains_key(key) && (key == provider || starts(key, provider + ":"@))
}

/// Some account can serve the binding now: the provider itself where it needs no
/// credential or none is stored at all, the account that the binding names where
/// it is stored, and any stored account where it names none.
pub open spec fn servable(
    m: ModelResourceManager,
    shared: Shared,
    binding: RoleBinding,
    store: Map<Seq<char>, CredentialView>,
    local_free: Seq<Seq<char>>,
    today: Today,
    now: u64,
) -> bool {
    let provider = binding.provider@;
    if local_free.contains(provider) {
        callable(m, shared, provider, provider, today, now)
    } else {
        match binding.account {
            Some(account) => {
                let key = account_key(provider, account@);
                store.contains_key(key) && callable(m, shared, provider, key, today, now)
            },
            None => {
                ||| exists|key: Seq<char>| #[trigger]
                    stored(store, key, provider) && callable(m, shared, provider, key, today, now)
                ||| (forall|key: Seq<char>| !store.contains_key(key)) && callable(
                    m,
                    shared,
                    provider,
                    provider,
                    today,
                    now,
                )
            },
        }
    }
}

/// `account` is what the binding comes down to: the account that it names, else
/// the first stored one that can be called, else none.
pub open spec fn served_by(
    m: ModelResourceManager,
    shared: Shared,
    binding: RoleBinding,
    account: Option<Seq<char>>,
    store: Map<Seq<char>, CredentialView>,
    local_free: Seq<Seq<char>>,
    today: Today,
    now: u64,
) -> bool {
    let provider = binding.provider@;
    if local_free.contains(provider) {
        account is None && callable(m, shared, provider, provider, today, now)
    } else {
        match binding.account {
            Some(named) => account == Some(named@) && store.contains_key(
                account_key(provider, named@),
            ) && callable(m, shared, provider, account_key(provider, named@), today, now),
            None => {
                ||| exists|key: Seq<char>| #[trigger]
                    stored(store, key, provider) && account_name(key, provider) == effective(account)
                        && (account is None ==> key == provider) && callable(
                        m,
                        shared,
                        provider,
                        key,
                        today,
                        now,
                    ) && forall|other: Seq<char>| #[trigger]
                        stored(store, other, provider) && callable(
                            m,
                            shared,
                            provider,
                            other,
                            today,
                            now,
                        ) ==> !precedes(other, key)
                ||| (forall|key: Seq<char>| !store.contains_key(key)) && account is None && callable(
                    m,
                    shared,
                    provider,
                    provider,
                    today,
                    now,
                )
            },
        }
    }
}

proof fn lemma_first_open(
    m: ModelResourceManager,
    shared: Shared,
    provider: Seq<char>,
    list: Seq<(Seq<char>, Option<Seq<char>>)>,
    today: Today,
    now: u64,
) -> (at: int)
    ensures
        match m.first_open(shared, provider, list, today, now) {
            Some(account) => 0 <= at < list.len() && list[at].1 == account && callable(
                m,
                shared,
                provider,
                list[at].0,
                today,
                now,
            ) && forall|i: int|
                0 <= i < at ==> !callable(m, shared, provider, (#[trigger] list[i]).0, today, now),
            None => forall|i: int|
                0 <= i < list.len() ==> !callable(
                    m,
                    shared,
                    provider,
                    (#[trigger] list[i]).0,
                    today,
                    now,
                ),
        },
    decreases list.len(),
{
    if list.len() == 0 {
        0
    } else if m.open(shared, provider, list[0].0, today, now) {
        0
    } else {
        let rest = list.subrange(1, list.len() as int);
        let at = lemma_first_open(m, shared, provider, rest, today, now);
        assert forall|i: int| 1 <= i < list.len() implies #[trigger] list[i] == rest[i - 1] by {}
        at + 1
    }
}

proof fn lemma_served(
    m: ModelResourceManager,
    shared: Shared,
    binding: RoleBinding,
    store: Map<Seq<char>, CredentialView>,
    local_free: Seq<Seq<char>>,
    today: Today,
    now: u64,
)
    requires
        store.dom().finite(),
    ensures
        match m.first_open(
            shared,
            binding.provider@,
            candidates_of(
                binding.provider@,
                opt_view(binding.account),
                store,
                local_free.contains(binding.provider@),
            ),
            today,
            now,
        ) {
            Some(account) => served_by(m, shared, binding, account, store, local_free, today, now)
                && servable(m, shared, binding, store, local_free, today, now),
            None => !servable(m, shared, binding, store, local_free, today, now),
        },
{
    let provider = binding.provider@;
    let free = local_free.contains(provider);
    let list = candidates_of(provider, opt_view(binding.account), store, free);
    let keys = sorted_accounts(store, provider);
    let at = lemma_first_open(m, shared, provider, list, today, now);
    law_accounts_are_listed(store, provider);
    let found = m.first_open(shared, provider, list, today, now);
    if free {
        assert(list[0] == (provider, None::<Seq<char>>));
    } else if binding.account is Some {
        let key = account_key(provider, binding.account->0@);
        if store.contains_key(key) {
            assert(list[0].0 == key);
        }
    } else if keys.len() == 0 {
        assert forall|key: Seq<char>| !#[trigger] stored(store, key, provider) by {
            assert(!keys.contains(key));
        }
        if forall|k: Seq<char>| !store.contains_key(k) {
            assert(list[0] == (provider, None::<Seq<char>>));
        }
    } else {
        assert(keys.contains(keys[0]));
        assert(stored(store, keys[0], provider));
        assert(list.len() == keys.len());
        assert forall|i: int| 0 <= i < list.len() implies (#[trigger] list[i]).0 == keys[i]
            && list[i].1 == behind(keys[i], provider + ":"@) by {}
        assert forall|other: Seq<char>| #[trigger] stored(store, other, provider) && callable(
            m,
            shared,
            provider,
            other,
            today,
            now,
        ) implies found is Some && !precedes(other, keys[at]) by {
            assert(keys.contains(other));
            let o = choose|o: int| 0 <= o < keys.len() && keys[o] == other;
            assert(list[o].0 == other);
            lemma_precedes_total(other, keys[at]);
            if at < o {
                assert(precedes(keys[at], keys[o]));
            }
        }
        if found is Some {
            let key = keys[at];
            assert(list[at].0 == key);
            assert(keys.contains(key));
            assert(stored(store, key, provider));
            assert(account_name(key, provider) == effective(found->0));
        }
    }
}

/// What a role of the chain comes down to: the first role of the chain that some
/// account can serve, under its own provider, model and account. Where another
/// role than the one that was asked for serves it, that is told; where none can,
/// nothing is resolved.
pub proof fn law_role_comes_down_to_a_binding(
    m: ModelResourceManager,
    shared: Shared,
    role: Seq<char>,
    chain: Seq<Seq<char>>,
    store: Map<Seq<char>, CredentialView>,
    local_free: Seq<Seq<char>>,
    today: Today,
    now: u64,
) -> (at: int)
    requires
        store.dom().finite(),
    ensures
        match m.first_role(shared, role, chain, store, local_free, today, now) {
            Some(r) => {
                let binding = m.config.roles@[chain[at]];
                &&& 0 <= at < chain.len()
                &&& m.config.roles@.contains_key(chain[at])
                &&& r.provider == binding.provider@
                &&& r.model == binding.model@
                &&& served_by(m, shared, binding, r.account, store, local_free, today, now)
                &&& r.degraded_from is None <==> chain[at] == role
                &&& r.degraded_from is Some ==> r.degraded_from->0 == role
                &&& forall|i: int|
                    0 <= i < at && m.config.roles@.contains_key(#[trigger] chain[i]) ==> !servable(
                        m,
                        shared,
                        m.config.roles@[chain[i]],
                        store,
                        local_free,
                        today,
                        now,
                    )
            },
            None => forall|i: int|
                0 <= i < chain.len() && m.config.roles@.contains_key(#[trigger] chain[i])
                    ==> !servable(
                    m,
                    shared,
                    m.config.roles@[chain[i]],
                    store,
                    local_free,
                    today,
                    now,
                ),
        },
    decreases chain.len(),
{
    if chain.len() == 0 {
        0
    } else {
        let rest = chain.subrange(1, chain.len() as int);
        assert forall|i: int| 1 <= i < chain.len() implies #[trigger] chain[i] == rest[i - 1] by {}
        let at = law_role_comes_down_to_a_binding(
            m,
            shared,
            role,
            rest,
            store,
            local_free,
            today,
            now,
        );
        if m.config.roles@.contains_key(chain[0]) {
            let binding = m.config.roles@[chain[0]];
            lemma_served(m, shared, binding, store, local_free, today, now);
            let list = candidates_of(
                binding.provider@,
                opt_view(binding.account),
                store,
                local_free.contains(binding.provider@),
            );
            if m.first_open(shared, binding.provider@, list, today, now) is Some {
                0
            } else {
                at + 1
            }
        } else {
            at + 1
        }
    }
}

/// The account that was chosen is the one that was checked: its key has a free
/// window, the provider has a free slot and is admitted, and it is stored unless
/// the provider needs no credential. A store that also names the default account
/// in full is left out: the two names of that account have two windows.
pub proof fn law_resolved_account_can_be_called(
    m: ModelResourceManager,
    shared: Shared,
    role: Seq<char>,
    chain: Seq<Seq<char>>,
    store: Map<Seq<char>, CredentialView>,
    local_free: Seq<Seq<char>>,
    today: Today,
    now: u64,
)
    requires
        store.dom().finite(),
        forall|key: Seq<char>| store.contains_key(key) ==> !ends(key, ":default"@),
        m.first_role(shared, role, chain, store, local_free, today, now) is Some,
    ensures
        ({
            let r = m.first_role(shared, role, chain, store, local_free, today, now)->0;
            let key = account_key(r.provider, effective(r.account));
            &&& m.refusal(shared.health@, r.provider, today, now) is None
            &&& m.has_free_slot(shared.pools@, r.provider)
            &&& !m.window_full(shared.rpm@, key, now)
            &&& store.contains_key(key) || local_free.contains(r.provider) || forall|k: Seq<char>|
                !store.contains_key(k)
        }),
{
    let at = law_role_comes_down_to_a_binding(
        m,
        shared,
        role,
        chain,
        store,
        local_free,
        today,
        now,
    );
    let r = m.first_role(shared, role, chain, store, local_free, today, now)->0;
    let binding = m.config.roles@[chain[at]];
    let provider = binding.provider@;
    let all_empty = forall|k: Seq<char>| !store.contains_key(k);
    if !local_free.contains(provider) && binding.account is None && !(all_empty && r.account is None) {
        let key = choose|key: Seq<char>| #[trigger]
            stored(store, key, provider) && account_name(key, provider) == effective(r.account) && (
            r.account is None ==> key == provider) && callable(m, shared, provider, key, today, now);
        lemma_stored_key(store, key, provider);
    } else if !local_free.contains(provider) && binding.account is None && !callable(
        m,
        shared,
        provider,
        provider,
        today,
        now,
    ) {
        let key = choose|key: Seq<char>| #[trigger]
            stored(store, key, provider) && account_name(key, provider) == effective(r.account) && (
            r.account is None ==> key == provider) && callable(m, shared, provider, key, today, now);
        lemma_stored_key(store, key, provider);
    }
}

proof fn lemma_stored_key(store: Map<Seq<char>, CredentialView>, key: Seq<char>, provider: Seq<char>)
    requires
        stored(store, key, provider),
        !ends(key, ":default"@),
    ensures
        account_key(provider, account_name(key, provider)) == key,
{
    reveal_strlit(":");
    reveal_strlit("default");
    reveal_strlit(":default");
    let prefix = provider + ":"@;
    if starts(key, prefix) {
        let name = key.subrange(prefix.len() as int, key.len() as int);
        assert(key =~= prefix + name);
        assert(provider + ":"@ + name =~= key);
        if name == "default"@ {
            assert(key.subrange(key.len() - 8, key.len() as int) =~= ":default"@);
        }
    }
}

/// Another account of the provider is stored, is not the one that was used, and
/// can be called; the first such in the order of the keys is chosen. Where there
/// is none, none can.
pub proof fn law_rotation_finds_another_account(
    m: ModelResourceManager,
    shared: Shared,
    provider: Seq<char>,
    store: Map<Seq<char>, CredentialView>,
    current: Seq<char>,
    today: Today,
    now: u64,
)
    requires
        store.dom().finite(),
    ensures
        match m.other_open(
            shared,
            provider,
            sorted_accounts(store, provider),
            current,
            today,
            now,
        ) {
            Some(name) => name != current && exists|key: Seq<char>| #[trigger]
                stored(store, key, provider) && account_name(key, provider) == name && callable(
                    m,
                    shared,
                    provider,
                    key,
                    today,
                    now,
                ) && forall|other: Seq<char>| #[trigger]
                    stored(store, other, provider) && account_name(other, provider) != current
                        && callable(m, shared, provider, other, today, now) ==> !precedes(other, key),
            None => forall|key: Seq<char>| #[trigger]
                stored(store, key, provider) && account_name(key, provider) != current ==> !callable(
                    m,
                    shared,
                    provider,
                    key,
                    today,
                    now,
                ),
        },
{
    let keys = sorted_accounts(store, provider);
    let at = lemma_other_open(m, shared, provider, keys, current, today, now);
    law_accounts_are_listed(store, provider);
    let found = m.other_open(shared, provider, keys, current, today, now);
    assert forall|other: Seq<char>| #[trigger] stored(store, other, provider) && account_name(
        other,
        provider,
    ) != current && callable(m, shared, provider, other, today, now) implies found is Some
        && !precedes(other, keys[at]) by {
        assert(keys.contains(other));
        let o = choose|o: int| 0 <= o < keys.len() && keys[o] == other;
        lemma_precedes_total(other, keys[at]);
        if at < o {
            assert(precedes(keys[at], keys[o]));
        }
    }
    if found is Some {
        assert(keys.contains(keys[at]));
        assert(stored(store, keys[at], provider));
    }
}

proof fn lemma_other_open(
    m: ModelResourceManager,
    shared: Shared,
    provider: Seq<char>,
    keys: Seq<Seq<char>>,
    current: Seq<char>,
    today: Today,
    now: u64,
) -> (at: int)
    ensures
        match m.other_open(shared, provider, keys, current, today, now) {
            Some(name) => 0 <= at < keys.len() && account_name(keys[at], provider) == name && name
                != current && callable(m, shared, provider, keys[at], today, now) && forall|i: int|
                0 <= i < at ==> account_name(#[trigger] keys[i], provider) == current || !callable(
                    m,
                    shared,
                    provider,
                    keys[i],
                    today,
                    now,
                ),
            None => forall|i: int|
                0 <= i < keys.len() ==> account_name(#[trigger] keys[i], provider) == current
                    || !callable(m, shared, provider, keys[i], today, now),
        },
    decreases keys.len(),
{
    if keys.len() == 0 {
        0
    } else {
        let rest = keys.subrange(1, keys.len() as int);
        let at = lemma_other_open(m, shared, provider, rest, current, today, now);
        assert forall|i: int| 1 <= i < keys.len() implies #[trigger] keys[i] == rest[i - 1] by {}
        if account_name(keys[0], provider) != current && m.open(
            shared,
            provider,
            keys[0],
            today,
            now,
        ) {
            0
        } else {
            at + 1
        }
    }
}

proof fn lemma_followed_links(roles: Map<Seq<char>, RoleBinding>, chain: Seq<Seq<char>>, left: nat)
    requires
        chain.len() > 0,
        forall|i: int|
            0 <= i < chain.len() - 1 ==> fallback_of(roles, #[trigger] chain[i]) == Some(
                chain[i + 1],
            ),
    ensures
        ({
            let out = followed(roles, chain, left);
            &&& chain.len() <= out.len() <= chain.len() + left
            &&& out[0] == chain[0]
            &&& forall|i: int|
                0 <= i < out.len() - 1 ==> fallback_of(roles, #[trigger] out[i]) == Some(out[i + 1])
            &&& out.len() == chain.len() + left || match fallback_of(roles, out.last()) {
                None => true,
                Some(next) => out.contains(next),
            }
        }),
    decreases left,
{
    if left > 0 {
        if let Some(next) = fallback_of(roles, chain.last()) {
            if !chain.contains(next) {
                let more = chain.push(next);
                assert forall|i: int| 0 <= i < more.len() - 1 implies fallback_of(
                    roles,
                    #[trigger] more[i],
                ) == Some(more[i + 1]) by {
                    assert(more[i] == chain[i]);
                    if i < chain.len() - 1 {
                        assert(more[i + 1] == chain[i + 1]);
                    }
                }
                lemma_followed_links(roles, more, (left - 1) as nat);
            }
        }
    }
}

/// The roles that are tried, in order. An unknown role starts from `execution`,
/// where that is configured. A role whose binding names another role as its
/// fallback is followed from fallback to fallback, three at most. Any other role
/// is followed by the configured ones of those that stand in for it.
pub proof fn law_chain_follows_the_fallbacks(roles: Map<Seq<char>, RoleBinding>, role: Seq<char>)
    ensures
        ({
            let chain = chain_of(roles, role);
            let root = chain[0];
            let next = fallback_of(roles, root);
            &&& chain.len() > 0
            &&& roles.contains_key(role) ==> root == role
            &&& !roles.contains_key(role) && roles.contains_key("execution"@) ==> root
                == "execution"@
            &&& !roles.contains_key(role) && !roles.contains_key("execution"@) ==> root == role
            &&& next is Some && next->0 != root ==> {
                &&& 1 < chain.len() <= 4
                &&& forall|i: int|
                    0 <= i < chain.len() - 1 ==> roles.contains_key(#[trigger] chain[i])
                        && opt_view(roles[chain[i]].fallback) == Some(chain[i + 1])
                &&& chain.len() == 4 || match fallback_of(roles, chain.last()) {
                    None => true,
                    Some(again) => chain.contains(again),
                }
            }
            &&& next is None || next->0 == root ==> {
                &&& forall|i: int| 1 <= i < chain.len() ==> roles.contains_key(#[trigger] chain[i])
                &&& chain.len() > 1 ==> root == "thinking"@ || root == "planning"@ || root
                    == "review"@
                &&& root == "thinking"@ && roles.contains_key("planning"@) ==> chain.len() > 1
                    && chain[1] == "planning"@
                &&& (root == "planning"@ || root == "review"@) && roles.contains_key("thinking"@)
                    ==> chain.len() > 1 && chain[1] == "thinking"@
                &&& (root == "thinking"@ || root == "planning"@ || root == "review"@)
                    && roles.contains_key("research"@) ==> chain.len() > 1 && chain.last()
                    == "research"@
                &&& chain.len() <= 3
            }
        }),
{
    let chain = chain_of(roles, role);
    let root = root_role(roles, role);
    let out = followed(roles, seq![root], 3);
    lemma_followed_links(roles, seq![root], 3);
    lemma_followed(roles, seq![root], 3);
    if out.len() > 1 {
        assert(fallback_of(roles, out[0]) == Some(out[1]));
        assert(out[0] != out[1]);
        assert forall|i: int| 0 <= i < chain.len() - 1 implies roles.contains_key(
            #[trigger] chain[i],
        ) && opt_view(roles[chain[i]].fallback) == Some(chain[i + 1]) by {
            assert(fallback_of(roles, out[i]) == Some(out[i + 1]));
        }
    } else {
        assert(out =~= seq![root]);
        assert(out.last() == root);
        if let Some(again) = fallback_of(roles, root) {
            assert(out.contains(again));
            assert(again == root);
        }
        let names = stand_ins(root);
        if names.len() == 2 {
            let a = names[0];
            let b = names[1];
            assert(names.drop_last() =~= seq![a]);
            assert(seq![a].drop_last() =~= Seq::<Seq<char>>::empty());
            assert(seq![a].last() == a);
            reveal_with_fuel(configured, 3);
            assert(configured(Seq::<Seq<char>>::empty(), roles) =~= Seq::<Seq<char>>::empty());
        }
        reveal_strlit("thinking");
        reveal_strlit("planning");
        reveal_strlit("review");
    }
}

/// A dispatch goes behind those before it, and only the oldest of a full history
/// makes room for it.
pub proof fn law_history_loses_only_the_oldest(history: Seq<RecordView>, record: RecordView)
    requires
        history.len() <= HISTORY_LIMIT,
    ensures
        recorded(history, record).last() == record,
        history.len() < HISTORY_LIMIT ==> recorded(history, record).drop_last() == history,
        history.len() == HISTORY_LIMIT ==> recorded(history, record).drop_last() == history.skip(1),
{
    if history.len() < HISTORY_LIMIT {
        assert(recorded(history, record).drop_last() =~= history);
    } else {
        assert(recorded(history, record).drop_last() =~= history.skip(1));
    }
}

} // verus!
