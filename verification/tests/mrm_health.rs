use kxen_core::config::{Config, CustomProviderDef, ProviderLimit};
use kxen_core::llm::mrm_health::{budget_error_for, CostCheck, DayUsage, Health, ProviderUsage, Today};
use kxen_core::table::Table;

const SCOPE: &str = "workspace:test";

fn config(limit: ProviderLimit) -> Config {
    let mut config = Config::new();
    config.limits.providers.insert("p", limit);
    config
}

fn circuit(threshold: u32, cooldown: u64) -> Config {
    config(ProviderLimit {
        circuit_failure_threshold: Some(threshold),
        circuit_cooldown_seconds: Some(cooldown),
        ..ProviderLimit::default()
    })
}

fn idle() -> Today {
    Today { usage: Ok(DayUsage { input: 0, output: 0, by_provider: Table::new() }), costs: Table::new() }
}

fn usage(input: u64, output: u64, unmetered_calls: u64) -> DayUsage {
    let mut by_provider = Table::new();
    by_provider.insert("p", ProviderUsage { input, output, unmetered_calls });
    DayUsage { input, output, by_provider }
}

#[test]
fn circuit_opens_and_success_resets_it() {
    let config = circuit(2, 60);
    let today = idle();
    let mut health = Health::new();
    health.record_result(SCOPE, "p", false, None, false, &config, 0);
    assert!(health.eligible(SCOPE, "p", &config, &today, 0).is_ok());
    health.record_result(SCOPE, "p", false, None, false, &config, 0);
    assert!(health.eligible(SCOPE, "p", &config, &today, 0).unwrap_err().contains("circuit open"));
    health.record_result(SCOPE, "p", true, None, false, &config, 0);
    assert!(health.eligible(SCOPE, "p", &config, &today, 0).is_ok());
}

#[test]
fn budgets_fail_closed_without_inventing_prices() {
    let config = config(ProviderLimit { has_cost_budget: true, ..ProviderLimit::default() });
    let today = usage(1_000_000, 0, 0);
    assert!(budget_error_for("p", &config, &today, &CostCheck::NoRates).unwrap().contains("requires explicit"));
    let reached = CostCheck::Reached("$2.0000/$1.0000".into());
    assert_eq!(
        budget_error_for("p", &config, &today, &reached).unwrap(),
        "provider p daily estimated cost admission threshold reached ($2.0000/$1.0000)"
    );
    assert_eq!(budget_error_for("p", &config, &today, &CostCheck::Within), None);
}

#[test]
fn unmetered_usage_fails_closed_for_token_and_provider_cost_admission() {
    let today = usage(10, 2, 1);
    let mut token_config = config(ProviderLimit::default());
    token_config.limits.daily_token_budget = Some(1_000);
    assert_eq!(
        budget_error_for("p", &token_config, &today, &CostCheck::Within).unwrap(),
        "daily token admission unavailable: Provider usage UNKNOWN for unmetered calls (p=1)"
    );
    let cost_config = config(ProviderLimit { has_cost_budget: true, ..ProviderLimit::default() });
    assert!(budget_error_for("p", &cost_config, &today, &CostCheck::Within).unwrap().contains("usage UNKNOWN"));
}

#[test]
fn token_budget_counts_input_and_output() {
    let mut config = config(ProviderLimit::default());
    config.limits.daily_token_budget = Some(12);
    assert_eq!(
        budget_error_for("p", &config, &usage(10, 2, 0), &CostCheck::Within).as_deref(),
        Some("daily token admission threshold reached")
    );
    assert_eq!(budget_error_for("p", &config, &usage(10, 1, 0), &CostCheck::Within), None);
}

#[test]
fn unreadable_usage_refuses_only_where_a_budget_applies() {
    let today = Today { usage: Err("usage store is corrupt".into()), costs: Table::new() };
    let health = Health::new();
    assert!(health.budget_admit("p", &config(ProviderLimit::default()), &today).is_ok());
    let budgeted = config(ProviderLimit { has_cost_budget: true, ..ProviderLimit::default() });
    assert_eq!(health.budget_admit("p", &budgeted, &today), Err("usage store is corrupt".into()));
}

#[test]
fn degraded_usage_storage_makes_health_cost_unknown() {
    let config = config(ProviderLimit::default());
    let health = Health::new();
    let today = usage(10, 2, 0);
    assert!(health.reports(SCOPE, &config, &today, true, 0)[0].usage_complete);
    assert!(!health.reports(SCOPE, &config, &today, false, 0)[0].usage_complete);
}

#[test]
fn reports_cover_limits_usage_and_circuits_in_order() {
    let config = circuit(1, 60);
    let mut today = usage(1, 2, 3);
    today.by_provider.insert("a", ProviderUsage { input: 5, output: 6, unmetered_calls: 0 });
    let mut health = Health::new();
    health.record_result(SCOPE, "z", false, None, false, &config, 0);
    health.record_result(SCOPE, "p", false, None, false, &config, 0);
    let reports = health.reports(SCOPE, &config, &today, true, 10_000);
    let names: Vec<&str> = reports.iter().map(|r| r.provider.as_str()).collect();
    assert_eq!(names, vec!["a", "p", "z"]);
    assert!(reports[1].circuit_open);
    assert_eq!(reports[1].cooldown_remaining_seconds, 50);
    assert_eq!(reports[1].unmetered_calls, 3);
    assert!(!reports[2].circuit_open);
    assert_eq!(reports[2].consecutive_failures, 1);
}

#[test]
fn threshold_hot_changes_normalize_open_timestamps() {
    let initial = circuit(3, 60);
    let today = idle();
    let mut health = Health::new();
    health.record_result(SCOPE, "p", false, None, false, &initial, 0);
    health.record_result(SCOPE, "p", false, None, false, &initial, 0);
    assert!(health.eligible(SCOPE, "p", &initial, &today, 0).is_ok());

    let lowered = circuit(2, 60);
    health.reconfigure(SCOPE, &lowered, 0);
    assert!(health.eligible(SCOPE, "p", &lowered, &today, 0).unwrap_err().contains("retry in 60s"));

    let raised = circuit(4, 60);
    health.reconfigure(SCOPE, &raised, 0);
    assert!(health.eligible(SCOPE, "p", &raised, &today, 0).is_ok());
    health.record_result(SCOPE, "p", false, None, false, &raised, 0);
    health.record_result(SCOPE, "p", false, None, false, &raised, 0);
    assert!(health.eligible(SCOPE, "p", &raised, &today, 0).unwrap_err().contains("retry in 60s"));
}

#[test]
fn cooldown_allows_exactly_one_half_open_probe() {
    let config = circuit(1, 0);
    let today = idle();
    let mut health = Health::new();
    health.record_result(SCOPE, "p", false, None, false, &config, 0);
    assert!(health.eligible(SCOPE, "p", &config, &today, 0).is_ok());

    let probe = health.claim(SCOPE, "p", &config, &today, 0).expect("first probe").expect("probe id");
    assert!(health.claim(SCOPE, "p", &config, &today, 0).unwrap_err().contains("probe in progress"));
    health.release_probe(&probe);
    let retry = health.claim(SCOPE, "p", &config, &today, 0).expect("released probe").expect("retry probe id");
    health.record_result(SCOPE, "p", true, Some(&retry), true, &config, 0);
    assert!(health.claim(SCOPE, "p", &config, &today, 0).expect("closed").is_some_and(|lease| lease.probe_id.is_none()));
}

#[test]
fn disabling_then_reenabling_circuit_starts_clean() {
    let enabled = circuit(1, 60);
    let today = idle();
    let mut health = Health::new();
    health.record_result(SCOPE, "p", false, None, false, &enabled, 0);
    let disabled = config(ProviderLimit { circuit_failure_threshold: Some(0), ..ProviderLimit::default() });
    health.reconfigure(SCOPE, &disabled, 0);
    assert!(health.eligible(SCOPE, "p", &disabled, &today, 0).is_ok());
    health.reconfigure(SCOPE, &enabled, 0);
    assert!(health.eligible(SCOPE, "p", &enabled, &today, 0).is_ok());
}

#[test]
fn old_in_flight_result_cannot_settle_an_active_probe() {
    let config = circuit(1, 0);
    let today = idle();
    let mut health = Health::new();
    health.record_result(SCOPE, "p", false, None, false, &config, 0);
    let probe = health.claim(SCOPE, "p", &config, &today, 0).expect("claim").expect("probe id");

    health.record_result(SCOPE, "p", true, None, true, &config, 0);

    assert!(health.claim(SCOPE, "p", &config, &today, 0).unwrap_err().contains("probe in progress"));
    health.record_result(SCOPE, "p", true, Some(&probe), true, &config, 0);
    assert!(health.claim(SCOPE, "p", &config, &today, 0).expect("closed").is_some_and(|lease| lease.probe_id.is_none()));
}

#[test]
fn failed_half_open_probe_restarts_cooldown() {
    let config = circuit(1, 1);
    let today = idle();
    let mut health = Health::new();
    health.record_result(SCOPE, "p", false, None, false, &config, 0);
    assert!(health.claim(SCOPE, "p", &config, &today, 999).unwrap_err().contains("retry in 1s"));
    let probe = health.claim(SCOPE, "p", &config, &today, 1_050).expect("cooled down").expect("probe id");

    health.record_result(SCOPE, "p", false, Some(&probe), true, &config, 1_050);

    assert!(health.eligible(SCOPE, "p", &config, &today, 1_050).unwrap_err().contains("retry in 1s"));
}

#[test]
fn late_success_from_pre_open_generation_cannot_close_circuit() {
    let config = circuit(3, 60);
    let today = idle();
    let mut health = Health::new();
    let leases: Vec<_> =
        (0..4).map(|_| health.claim(SCOPE, "p", &config, &today, 0).expect("closed admission").expect("lease")).collect();
    for lease in &leases[..3] {
        health.record_result(SCOPE, "p", false, Some(lease), true, &config, 0);
    }

    health.record_result(SCOPE, "p", true, Some(&leases[3]), true, &config, 0);

    assert!(health.eligible(SCOPE, "p", &config, &today, 0).unwrap_err().contains("circuit open"));
}

#[test]
fn in_flight_custom_result_settles_the_endpoint_it_claimed() {
    fn custom(base_url: &str) -> Config {
        let mut config = Config::new();
        config.custom_providers.insert(
            "lab",
            CustomProviderDef {
                base_url: base_url.into(),
                models: vec!["model".into()],
                protocol: "openai".into(),
                capabilities: vec!["text".into()],
            },
        );
        config.limits.providers.insert(
            "custom:lab",
            ProviderLimit {
                circuit_failure_threshold: Some(1),
                circuit_cooldown_seconds: Some(60),
                ..ProviderLimit::default()
            },
        );
        config
    }

    let old = custom("https://old.example/v1");
    let new = custom("https://new.example/v1");
    let today = idle();
    let mut health = Health::new();
    let lease = health.claim(SCOPE, "custom:lab", &old, &today, 0).unwrap().unwrap();

    health.record_result(SCOPE, "custom:lab", false, Some(&lease), true, &new, 0);

    assert!(health.eligible(SCOPE, "custom:lab", &new, &today, 0).is_ok());
    assert!(health.eligible(SCOPE, "custom:lab", &old, &today, 0).unwrap_err().contains("circuit open"));
}

#[test]
fn switched_off_breaker_hands_out_no_lease() {
    let config = circuit(0, 60);
    let mut health = Health::new();
    health.record_result(SCOPE, "p", false, None, false, &config, 0);
    assert!(health.claim(SCOPE, "p", &config, &idle(), 0).unwrap().is_none());
}
