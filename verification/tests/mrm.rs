use kxen_core::auth::{AuthStore, CredentialKind};
use kxen_core::config::{Config, ProviderLimit, RoleBinding};
use kxen_core::llm::mrm::manager::{abandon, CallPermit, ModelResourceManager, Shared, StartStep};
use kxen_core::llm::mrm::route::history;
use kxen_core::llm::mrm::state::Pools;
use kxen_core::llm::mrm_health::{DayUsage, Today};
use kxen_core::table::Table;

fn idle() -> Today {
    Today { usage: Ok(DayUsage { input: 0, output: 0, by_provider: Table::new() }), costs: Table::new() }
}

fn binding(provider: &str, model: &str) -> RoleBinding {
    RoleBinding { provider: provider.into(), model: model.into(), account: None, fallback: None }
}

fn config(limit: ProviderLimit) -> Config {
    let mut config = Config::new();
    config.limits.global_concurrent = 8;
    config.limits.providers.insert("p", limit);
    config.roles.insert("execution", binding("p", "m"));
    config
}

fn slots(n: u32) -> Config {
    config(ProviderLimit { concurrent: Some(n), ..ProviderLimit::default() })
}

fn begin(mrm: &ModelResourceManager, shared: &mut Shared, now: u64) -> CallPermit {
    let key = mrm.open_call(shared, "p", None, true, Ok(()), &idle(), now).unwrap();
    assert_eq!(mrm.rpm_wait(shared, &key, now), 0);
    let provider = mrm.acquire_provider(shared, "p").expect("a slot of the provider");
    let global = mrm.acquire_global(shared).expect("a slot");
    match mrm.try_start(shared, "p", &key, provider, global, true, &idle(), now) {
        StartStep::Granted(permit) => permit,
        _ => panic!("the call does not start"),
    }
}

#[test]
fn seeded_chat_role_resolves() {
    let mut config = Config::new();
    config.roles.insert("chat", binding("xai", "grok-build-0.1"));
    let mrm = ModelResourceManager::new(config);
    let mut shared = Shared::new();
    let store = AuthStore::new();
    let resolved = mrm.resolve(&mut shared, "chat", &store, &vec![], &idle(), 0, 0).expect("chat resolves");
    assert_eq!((resolved.provider.as_str(), resolved.model.as_str()), ("xai", "grok-build-0.1"));
}

#[test]
fn peek_resolves_without_recording_history() {
    let mut config = Config::new();
    config.roles.insert("chat", binding("xai", "grok-build-0.1"));
    let mrm = ModelResourceManager::new(config);
    let mut shared = Shared::new();
    let store = AuthStore::new();
    let peeked = mrm.peek(&shared, "chat", &store, &vec![], &idle(), 0).expect("peek resolves");
    assert_eq!(peeked.model, "grok-build-0.1");
    assert!(history(&shared).is_empty());
    assert!(mrm.resolve(&mut shared, "chat", &store, &vec![], &idle(), 0, 0).is_some());
    assert_eq!(history(&shared).len(), 1);
}

#[test]
fn local_free_provider_resolves_with_unrelated_credentials_present() {
    let mut config = Config::new();
    config.roles.insert("execution", binding("ollama", "qwen"));
    let mrm = ModelResourceManager::new(config);
    let mut shared = Shared::new();
    let mut store = AuthStore::new();
    store.insert("openai", CredentialKind::Api { key: "unrelated".into(), region: None });
    let resolved = mrm
        .resolve(&mut shared, "execution", &store, &vec!["ollama".to_string()], &idle(), 0, 0)
        .expect("a local provider needs no credential");
    assert_eq!(resolved.provider, "ollama");
    assert!(resolved.account.is_none());
    assert!(mrm.resolve(&mut shared, "execution", &store, &vec![], &idle(), 0, 0).is_none());
}

#[test]
fn in_flight_slot_survives_rebuild() {
    let mut shared = Shared::new();
    let mut mrm = ModelResourceManager::new(slots(1));
    let slot = mrm.acquire_provider(&mut shared, "p").unwrap();
    mrm.reconfigured(&mut shared, slots(1), 0);
    assert!(!mrm.available(&shared, "p"));
    assert!(mrm.acquire_provider(&mut shared, "p").is_none());
    shared.pools.release(slot);
    assert!(mrm.acquire_provider(&mut shared, "p").is_some());
}

#[test]
fn circuit_state_survives_rebuild() {
    let cfg = || {
        config(ProviderLimit {
            circuit_failure_threshold: Some(1),
            circuit_cooldown_seconds: Some(600),
            ..ProviderLimit::default()
        })
    };
    let mut shared = Shared::new();
    let mut mrm = ModelResourceManager::new(cfg());
    mrm.record_result(&mut shared, "p", false, 0);
    assert!(mrm.admission(&shared, "p", &idle(), 0).is_err());
    mrm.reconfigured(&mut shared, cfg(), 1);
    assert!(mrm.admission(&shared, "p", &idle(), 1).is_err());
}

#[test]
fn rpm_window_and_history_survive_rebuild() {
    let cfg = || config(ProviderLimit { rpm: Some(1), concurrent: Some(4), ..ProviderLimit::default() });
    let mut shared = Shared::new();
    let mut mrm = ModelResourceManager::new(cfg());
    let store = AuthStore::new();
    assert!(mrm.resolve(&mut shared, "execution", &store, &vec![], &idle(), 0, 0).is_some());
    let slot = begin(&mrm, &mut shared, 0).start();
    shared.pools.release(slot.permit_global);
    shared.pools.release(slot.permit_provider);

    mrm.reconfigured(&mut shared, cfg(), 0);
    assert!(mrm.rpm_blocked(&shared, "p", 0));
    assert!(mrm.resolve(&mut shared, "execution", &store, &vec![], &idle(), 0, 0).is_none());
    assert_eq!(history(&shared).len(), 1);
    assert!(!mrm.rpm_blocked(&shared, "p", 60_000));
}

#[test]
fn lowered_concurrency_limit_takes_effect_on_rebuild() {
    let mut shared = Shared::new();
    let mut mrm = ModelResourceManager::new(slots(2));
    let g1 = mrm.acquire_provider(&mut shared, "p").unwrap();
    let g2 = mrm.acquire_provider(&mut shared, "p").unwrap();
    mrm.reconfigured(&mut shared, slots(1), 0);
    assert!(!mrm.available(&shared, "p"));
    shared.pools.release(g1);
    assert!(mrm.acquire_provider(&mut shared, "p").is_none());
    shared.pools.release(g2);
    assert!(mrm.available(&shared, "p"));
    let desc = mrm.describe(&shared);
    assert!(desc.contains("p: 1/1 available"), "{desc}");
}

#[test]
fn raised_concurrency_limit_takes_effect_on_rebuild() {
    let mut shared = Shared::new();
    let mut mrm = ModelResourceManager::new(slots(1));
    let _g1 = mrm.acquire_provider(&mut shared, "p").unwrap();
    mrm.reconfigured(&mut shared, slots(3), 0);
    assert!(mrm.acquire_provider(&mut shared, "p").is_some());
    assert!(mrm.acquire_provider(&mut shared, "p").is_some());
    assert!(!mrm.available(&shared, "p"));
}

#[test]
fn queued_old_handle_observes_raised_limit() {
    let mut shared = Shared::new();
    let mut mrm = ModelResourceManager::new(slots(1));
    let _held = mrm.acquire_provider(&mut shared, "p").unwrap();
    assert!(mrm.acquire_provider(&mut shared, "p").is_none());
    let mut raised = slots(2);
    raised.roles.insert("review", binding("q", "n"));
    mrm.reconfigured(&mut shared, raised, 0);
    assert!(mrm.acquire_provider(&mut shared, "p").is_some());
    assert_eq!(mrm.role("review").map(|binding| binding.model.as_str()), Some("n"));
    assert!(mrm.role("chat").is_none() && mrm.custom_provider("x").is_none());
}

#[test]
fn cancelled_rpm_reservation_wakes_waiter() {
    let mut shared = Shared::new();
    let mrm = ModelResourceManager::new(config(ProviderLimit {
        rpm: Some(1),
        concurrent: Some(2),
        ..ProviderLimit::default()
    }));
    let reserved = begin(&mrm, &mut shared, 0);
    assert!(mrm.rpm_wait(&shared, "p", 0) > 0);
    abandon(&mut shared, reserved);
    assert_eq!(mrm.rpm_wait(&shared, "p", 0), 0);
    let next = begin(&mrm, &mut shared, 0);
    abandon(&mut shared, next);
}

#[test]
fn pools_count_by_key() {
    let mut pools = Pools::new();
    let a = pools.try_acquire("a", 1).unwrap();
    let _b = pools.try_acquire("b", 1).unwrap();
    assert!(pools.try_acquire("a", 1).is_none());
    pools.release(a);
    assert!(pools.try_acquire("a", 1).is_some());
    assert!(pools.try_acquire("b", 1).is_none());
    assert!(pools.try_acquire("b", 2).is_some());
    assert!(pools.try_acquire("c", 0).is_some());
    assert_eq!(pools.in_flight("b"), 2);
}

#[test]
fn releasing_one_key_wakes_its_waiter_even_if_another_key_queued_first() {
    let mut pools = Pools::new();
    let held_a = pools.try_acquire("a", 1).unwrap();
    let _held_b = pools.try_acquire("b", 1).unwrap();
    assert!(pools.try_acquire("b", 1).is_none());
    assert!(pools.try_acquire("a", 1).is_none());
    pools.release(held_a);
    assert!(pools.try_acquire("b", 1).is_none());
    assert!(pools.try_acquire("a", 1).is_some());
}

#[test]
fn queued_waiter_rechecks_a_raised_limit_without_a_release() {
    let mut pools = Pools::new();
    let _held = pools.try_acquire("p", 1).unwrap();
    assert!(pools.try_acquire("p", 1).is_none());
    assert!(pools.try_acquire("p", 2).is_some());
}

#[test]
fn queued_waiter_rechecks_a_lowered_limit_after_release() {
    let mut pools = Pools::new();
    let first = pools.try_acquire("p", 2).unwrap();
    let second = pools.try_acquire("p", 2).unwrap();
    pools.release(first);
    assert!(pools.try_acquire("p", 1).is_none());
    pools.release(second);
    assert!(pools.try_acquire("p", 1).is_some());
}

#[test]
fn a_workspace_shares_slots_and_not_circuits() {
    let limits = || {
        config(ProviderLimit { concurrent: Some(1), circuit_failure_threshold: Some(1), ..ProviderLimit::default() })
    };
    let mut shared = Shared::new();
    let mrm = ModelResourceManager::new(limits());
    let workspace = mrm.scoped(&mut shared, "workspace", limits(), 0);
    mrm.record_result(&mut shared, "p", false, 0);
    assert!(mrm.admission(&shared, "p", &idle(), 0).is_err());
    assert!(workspace.admission(&shared, "p", &idle(), 0).is_ok());
    let held = mrm.acquire_provider(&mut shared, "p").unwrap();
    assert!(!workspace.available(&shared, "p"));
    shared.pools.release(held);
    assert!(workspace.available(&shared, "p"));
}

#[test]
fn accounts_rotate_to_the_next_one_that_is_open() {
    let mut store = AuthStore::new();
    for key in ["p", "p:a", "p:b"] {
        store.insert(key, CredentialKind::Api { key: "k".into(), region: None });
    }
    let mrm = ModelResourceManager::new(config(ProviderLimit { rpm: Some(1), ..ProviderLimit::default() }));
    let mut shared = Shared::new();
    assert_eq!(mrm.rotate_account(&shared, "p", &store, None, &idle(), 0).as_deref(), Some("a"));
    shared.rpm.reserve("p:a", Some(1), 0).unwrap();
    assert_eq!(mrm.rotate_account(&shared, "p", &store, None, &idle(), 0).as_deref(), Some("b"));
    assert_eq!(mrm.rotate_account(&shared, "p", &store, Some("b"), &idle(), 0).as_deref(), Some("default"));
    let mut one = AuthStore::new();
    one.insert("p", CredentialKind::Api { key: "k".into(), region: None });
    assert_eq!(mrm.rotate_account(&shared, "p", &one, None, &idle(), 0), None);
    let found = mrm.resolve(&mut shared, "execution", &store, &Vec::new(), &idle(), 0, 9).unwrap();
    assert_eq!(found.slot_key(), "p");
    assert_eq!(history(&shared)[0].at, 9);
}
