use kxen_core::config::{Config, ProviderLimit};
use kxen_core::llm::managed::{
    check_request, check_start, conclude, is_cancelled_error, refuse, CircuitPolicy, CollectStep, Collector,
    ManagedErrorKind, ManagedOutput, StreamEnd, TokenUsage, Unadmitted,
};
use kxen_core::llm::mrm::manager::{release_slot, CallOutcome, ModelResourceManager, Shared, StartStep};
use kxen_core::llm::mrm_health::{DayUsage, Today};
use kxen_core::llm::types::Delta;
use kxen_core::llm::verify::{outcome, Probe, VerifyOutcome};
use kxen_core::table::Table;

fn idle() -> Today {
    Today { usage: Ok(DayUsage { input: 0, output: 0, by_provider: Table::new() }), costs: Table::new() }
}

fn with_limit(limit: ProviderLimit) -> ModelResourceManager {
    let mut config = Config::new();
    config.limits.global_concurrent = 1;
    config.limits.providers.insert("xai", limit);
    ModelResourceManager::new(config)
}

fn threshold(n: u32, cooldown: u64) -> ProviderLimit {
    ProviderLimit {
        circuit_failure_threshold: Some(n),
        circuit_cooldown_seconds: Some(cooldown),
        ..ProviderLimit::default()
    }
}

fn collect(deltas: Vec<Delta>) -> (Collector, StreamEnd) {
    let mut collector = Collector::new();
    for delta in deltas {
        match collector.observe(delta) {
            CollectStep::Finished => return (collector, StreamEnd::Completed),
            CollectStep::Failed(e) => return (collector, StreamEnd::Failed(e)),
            _ => {}
        }
    }
    (collector, StreamEnd::Completed)
}

#[test]
fn local_dispatch_failure_is_not_counted_as_a_provider_request() {
    let mrm = with_limit(threshold(1, 600));
    let shared = Shared::new();
    let error = check_request(false, Err("xai credential missing".into())).unwrap_err();
    assert_eq!(error.kind, ManagedErrorKind::Local);
    assert!(!error.request_started);
    assert!(!error.usage_reported);
    assert!(mrm.admission(&shared, "xai", &idle(), 0).is_ok());
    assert!(check_request(false, Ok(())).is_ok());
}

#[test]
fn rejects_open_circuit_before_starting_stream() {
    let mrm = with_limit(threshold(1, 600));
    let mut shared = Shared::new();
    mrm.record_result(&mut shared, "xai", false, 0);
    let refused = mrm.open_call(&shared, "xai", None, true, Ok(()), &idle(), 0).unwrap_err();
    let error = refuse("xai", Unadmitted::Refused(refused));
    assert!(error.message.contains("circuit open"));
    assert_eq!(error.kind, ManagedErrorKind::Admission);
    assert!(!error.request_started);
}

#[test]
fn collects_text_through_managed_stream() {
    let (collector, end) = collect(vec![Delta::Text("po".into()), Delta::Text("ng".into()), Delta::Done]);
    let done = conclude(CircuitPolicy::Record, end, collector, None, "xai", 1);
    assert_eq!(
        done.result.unwrap(),
        ManagedOutput { text: "pong".into(), usage: None, metering_warning: None }
    );
    assert_eq!(done.outcome, Some(CallOutcome::Success));
}

#[test]
fn local_queue_timeout_does_not_open_provider_circuit() {
    let mrm = with_limit(ProviderLimit { concurrent: Some(1), rpm: Some(1), ..threshold(1, 600) });
    let mut shared = Shared::new();
    let _held = mrm.acquire_provider(&mut shared, "xai").unwrap();
    assert!(mrm.acquire_provider(&mut shared, "xai").is_none());
    let error = refuse("xai", Unadmitted::TimedOut("0.01".into()));
    assert_eq!(error.message, "provider xai local resource queue timed out after 0.01s");
    assert!(mrm.admission(&shared, "xai", &idle(), 0).is_ok());
    assert!(!mrm.rpm_blocked(&shared, "xai", 0));
}

#[test]
fn cancellation_does_not_open_provider_circuit() {
    let mrm = with_limit(threshold(1, 600));
    let mut shared = Shared::new();
    let (collector, _) = collect(vec![]);
    let done = conclude(CircuitPolicy::Record, StreamEnd::Cancelled, collector, None, "xai", 1);
    let error = done.result.unwrap_err();
    assert!(is_cancelled_error(&error.message));
    assert!(error.request_started);
    mrm.record_call_outcome(&mut shared, "xai", None, done.outcome.unwrap(), 0);
    assert!(mrm.admission(&shared, "xai", &idle(), 0).is_ok());
}

#[test]
fn admission_is_rechecked_after_waiting_for_a_slot() {
    let mrm = with_limit(ProviderLimit { concurrent: Some(1), rpm: Some(1), ..threshold(1, 600) });
    let mut shared = Shared::new();
    let key = mrm.open_call(&shared, "xai", None, true, Ok(()), &idle(), 0).unwrap();
    mrm.record_result(&mut shared, "xai", false, 0);
    let provider = mrm.acquire_provider(&mut shared, "xai").unwrap();
    let global = mrm.acquire_global(&mut shared).unwrap();
    match mrm.try_start(&mut shared, "xai", &key, provider, global, true, &idle(), 0) {
        StartStep::Refused(e) => assert!(e.contains("circuit open"), "{e}"),
        _ => panic!("the circuit is open"),
    }
    assert!(!mrm.rpm_blocked(&shared, "xai", 0));
    assert!(mrm.available(&shared, "xai"));
}

#[test]
fn queue_and_stream_share_one_total_deadline() {
    let ms = 1_000_000;
    let error = check_start("xai", 200 * ms, 20 * ms, false, Ok(())).unwrap_err();
    assert!(error.message.contains("local resource queue exhausted"));
    assert!(!error.request_started);
    assert!(check_start("xai", 200 * ms, 50 * ms, false, Ok(())).is_ok());
    assert!(check_start("xai", 60_000 * ms, 1_000 * ms, false, Ok(())).is_ok());
    assert_eq!(check_start("xai", 4, 4, true, Ok(())).unwrap_err().kind, ManagedErrorKind::Cancelled);
    let barrier = check_start("xai", 4, 4, false, Err("marker".into())).unwrap_err();
    assert_eq!((barrier.kind, barrier.message.as_str()), (ManagedErrorKind::Local, "marker"));
}

#[test]
fn neutral_probe_failure_does_not_open_shared_circuit() {
    let (collector, end) = collect(vec![Delta::Error("invalid probe key".into())]);
    let done = conclude(CircuitPolicy::Neutral, end, collector, None, "xai", 1);
    assert_eq!(done.result.unwrap_err().message, "invalid probe key");
    assert_eq!(done.outcome, None);
}

#[test]
fn neutral_probe_can_test_recovery_while_shared_circuit_is_open() {
    let mrm = with_limit(threshold(1, 600));
    let mut shared = Shared::new();
    mrm.record_result(&mut shared, "xai", false, 0);
    assert!(mrm.open_call(&shared, "xai", None, false, Ok(()), &idle(), 0).is_ok());
    let (collector, end) = collect(vec![Delta::Text("ok".into()), Delta::Done]);
    let done = conclude(CircuitPolicy::Neutral, end, collector, None, "xai", 1);
    assert_eq!(done.result.unwrap().text, "ok");
    assert_eq!(done.outcome, None);
    assert!(mrm.admission(&shared, "xai", &idle(), 0).is_err());
}

#[test]
fn half_open_allows_only_one_managed_provider_stream() {
    let mrm = with_limit(ProviderLimit { concurrent: Some(2), ..threshold(1, 0) });
    let mut shared = Shared::new();
    mrm.record_result(&mut shared, "xai", false, 0);
    let key = mrm.open_call(&shared, "xai", None, true, Ok(()), &idle(), 0).unwrap();
    let provider = mrm.acquire_provider(&mut shared, "xai").unwrap();
    let global = mrm.acquire_global(&mut shared).unwrap();
    let first = match mrm.try_start(&mut shared, "xai", &key, provider, global, true, &idle(), 0) {
        StartStep::Granted(permit) => permit.start(),
        _ => panic!("the first probe starts"),
    };
    let second = mrm.open_call(&shared, "xai", None, true, Ok(()), &idle(), 0).unwrap_err();
    assert!(second.contains("probe in progress"), "{second}");
    mrm.record_call_outcome(&mut shared, "xai", Some(&first), CallOutcome::Success, 0);
    release_slot(&mut shared, first);
    assert!(mrm.open_call(&shared, "xai", None, true, Ok(()), &idle(), 0).is_ok());
}

#[test]
fn usage_adds_up_and_survives_a_timeout() {
    let (collector, _) = collect(vec![
        Delta::Usage { input: 2, output: 3 },
        Delta::Reasoning("hm".into()),
        Delta::Usage { input: 5, output: 7 },
    ]);
    assert!(!collector.needs_unknown_record(true));
    let done = conclude(CircuitPolicy::Record, StreamEnd::TimedOut, collector, None, "xai", 8);
    let error = done.result.unwrap_err();
    assert_eq!(error.message, "provider xai request timed out after 8s");
    assert_eq!(error.usage, Some(TokenUsage { input: 7, output: 10 }));
    assert_eq!(done.outcome, Some(CallOutcome::Failure));
    let (unmetered, end) = collect(vec![Delta::Done]);
    assert!(unmetered.needs_unknown_record(true));
    assert!(!unmetered.needs_unknown_record(false));
    let done = conclude(CircuitPolicy::Record, end, unmetered, Some("ledger degraded".into()), "xai", 8);
    assert_eq!(done.result.unwrap().metering_warning, Some("ledger degraded".to_string()));
}

#[test]
fn cancellation_while_queued_does_not_consume_rpm() {
    let mrm = with_limit(ProviderLimit { concurrent: Some(1), rpm: Some(1), ..ProviderLimit::default() });
    let mut shared = Shared::new();
    let held = mrm.acquire_provider(&mut shared, "xai").unwrap();
    let key = mrm.open_call(&shared, "xai", None, true, Ok(()), &idle(), 0).unwrap();
    assert_eq!(mrm.rpm_wait(&shared, &key, 0), 0);
    assert!(mrm.acquire_provider(&mut shared, "xai").is_none());
    let error = refuse("xai", Unadmitted::Cancelled);
    shared.pools.release(held);
    assert!(is_cancelled_error(&error.message), "queued request must cancel");
    assert!(!mrm.rpm_blocked(&shared, "xai", 0), "queued cancellation must not consume RPM");
}

#[test]
fn collect_text_stalled_stream_times_out() {
    let (collector, _) = collect(vec![]);
    let done = conclude(CircuitPolicy::Record, StreamEnd::TimedOut, collector, None, "xai", 1);
    let error = done.result.unwrap_err();
    assert_eq!(error.kind, ManagedErrorKind::Timeout);
    assert!(error.message.contains("timed out"));
    assert!(error.request_started && !error.usage_reported);
}

#[test]
fn collect_text_concatenates_and_propagates_error() {
    let (ok, end) = collect(vec![
        Delta::Text("[{\"a\":".into()),
        Delta::Reasoning("skip".into()),
        Delta::Text("1}]".into()),
    ]);
    let done = conclude(CircuitPolicy::Record, end, ok, None, "xai", 1);
    assert_eq!(done.result.unwrap().text, "[{\"a\":1}]");
    let (bad, end) = collect(vec![Delta::Error("boom".into())]);
    let done = conclude(CircuitPolicy::Record, end, bad, None, "xai", 1);
    assert_eq!(done.result.unwrap_err().message, "boom");
    assert_eq!(done.outcome, Some(CallOutcome::Failure));
}

fn probe(deltas: Vec<Delta>) -> VerifyOutcome {
    let mut collector = Collector::new();
    let mut end = StreamEnd::Completed;
    for delta in deltas {
        match collector.observe(delta) {
            CollectStep::Finished => break,
            CollectStep::Failed(e) => {
                end = StreamEnd::Failed(e);
                break;
            }
            _ => {}
        }
    }
    let done = conclude(CircuitPolicy::Neutral, end, collector, None, "xai", 20);
    outcome(Probe::new(done.result, done.answered).on_settled(Ok(None)), 5)
}

#[test]
fn the_first_valid_event_tells_that_the_provider_is_alive() {
    let late = probe(vec![Delta::Text("pong".into()), Delta::Error("late".into())]);
    assert!(late.ok);
    assert_eq!(late.detail, "live ok");
    let dead = probe(vec![Delta::Error("HTTP 401".into()), Delta::Text("pong".into())]);
    assert!(!dead.ok);
    assert_eq!(dead.detail, "HTTP 401");

    let mut collector = Collector::new();
    assert!(!collector.is_enough(true));
    collector.observe(Delta::Error("HTTP 500".into()));
    assert!(!collector.is_enough(true));
    collector.observe(Delta::Text("pong".into()));
    assert!(collector.is_enough(true) && !collector.is_enough(false));

    let silent = conclude(CircuitPolicy::Neutral, StreamEnd::TimedOut, Collector::new(), None, "xai", 20);
    let shown = outcome(Probe::new(silent.result, silent.answered).on_settled(Ok(None)), 5);
    assert!(!shown.ok);
    assert_eq!(shown.detail, "provider xai request timed out after 20s");
}
