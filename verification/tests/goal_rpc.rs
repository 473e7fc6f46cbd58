use kxen_core::goal_rpc::{
    contract_of, focus_json, goal_id, list_json, method_of, session_of, to_json, update_of, Goal, GoalStatus, Method,
    Transition,
};
use kxen_core::json::Json;

fn bare_goal() -> Goal {
    Goal {
        id: "goal-t1".into(),
        status: GoalStatus::Draft,
        objective: "o".into(),
        completion_criteria: "c".into(),
        constraints: None,
        budget: Json::Null,
        turns_used: 1,
        tokens_used: 2,
        consecutive_blocks: 3,
        block_reason: None,
        verification_evidence: Some("log".into()),
        session_id: None,
    }
}

fn object(fields: Vec<(&str, Json)>) -> Json {
    Json::Obj(fields.into_iter().map(|(k, v)| (k.to_string(), v)).collect())
}

fn text(s: &str) -> Json {
    Json::Str(s.to_string())
}

#[test]
fn to_json_status_matches_as_str() {
    let mut g = bare_goal();
    for status in [
        GoalStatus::Draft,
        GoalStatus::Queued,
        GoalStatus::Active,
        GoalStatus::Paused,
        GoalStatus::Blocked,
        GoalStatus::BudgetLimited,
        GoalStatus::Complete,
        GoalStatus::Canceled,
    ] {
        g.status = status;
        assert_eq!(to_json(&g).text_at("status").unwrap(), status.as_str(), "{status:?}");
    }
    g.status = GoalStatus::BudgetLimited;
    assert_eq!(to_json(&g).text_at("status").unwrap(), "budget_limited");
}

#[test]
fn publish_emits_canonical_goal_update() {
    let mut goal = bare_goal();
    goal.status = GoalStatus::Paused;
    let update = update_of(&goal);
    assert_eq!(update.id, goal.id);
    assert_eq!(update.status, "paused");
}

#[test]
fn a_goal_is_shown_with_all_its_fields() {
    let shown = to_json(&bare_goal());
    let keys: Vec<&str> = shown.as_object().unwrap().iter().map(|(k, _)| k.as_str()).collect();
    assert_eq!(
        keys,
        vec![
            "id",
            "status",
            "objective",
            "completion_criteria",
            "constraints",
            "budget",
            "turns_used",
            "tokens_used",
            "consecutive_blocks",
            "block_reason",
            "verification_evidence",
        ]
    );
    assert_eq!(shown.number_at("tokens_used"), Some(2));
    assert!(matches!(shown.get("constraints"), Some(Json::Null)));
    assert_eq!(shown.text_at("verification_evidence").unwrap(), "log");
    assert_eq!(list_json(&vec![bare_goal(), bare_goal()]).as_array().unwrap().len(), 2);
    assert!(matches!(focus_json(&None), Json::Null));
    assert!(focus_json(&Some(bare_goal())).as_object().is_some());
}

#[test]
fn methods_go_by_their_names() {
    for (name, method) in [
        ("goal.list", Method::List),
        ("goal.focus", Method::Focus),
        ("goal.create", Method::Create),
        ("goal.activate", Method::Transit(Transition::Activate)),
        ("goal.pause", Method::Transit(Transition::Pause)),
        ("goal.resume", Method::Transit(Transition::Resume)),
        ("goal.cancel", Method::Transit(Transition::Cancel)),
        ("goal.adjust", Method::Transit(Transition::Adjust)),
    ] {
        assert_eq!(method_of(name), Ok(method));
    }
    assert_eq!(method_of("goal.complete"), Err("unknown goal method: goal.complete".to_string()));
}

#[test]
fn contracts_are_read_from_parameters() {
    let params = object(vec![
        ("objective", text("ship")),
        ("completion_criteria", text("green")),
        ("session_id", text("ses_1")),
        ("budget", object(vec![("tokens", Json::Uint(10)), ("wall_clock_ms", Json::Uint(5))])),
    ]);
    let contract = contract_of(&params, Ok(Some(7))).unwrap();
    assert_eq!(contract.objective, "ship");
    assert_eq!(contract.completion_criteria, "green");
    assert_eq!(contract.constraints, None);
    assert_eq!(contract.budget.tokens, Some(10));
    assert_eq!(contract.budget.turns, Some(7));
    assert_eq!(contract.budget.wall_clock_ms, Some(5));
    assert_eq!(session_of(&params), Some("ses_1".to_string()));
    assert_eq!(contract_of(&params, Err("too many turns".into())).unwrap_err(), "too many turns");
    assert_eq!(contract_of(&object(vec![]), Ok(None)).unwrap_err(), "missing objective");
    let partial = object(vec![("objective", text("ship"))]);
    assert_eq!(contract_of(&partial, Ok(None)).unwrap_err(), "missing completion_criteria");
    assert_eq!(goal_id(&params).unwrap_err(), "missing id");
    assert_eq!(goal_id(&object(vec![("id", text("goal-1"))])).unwrap(), "goal-1");
}

#[test]
fn only_pausing_and_cancelling_stop_a_run() {
    assert!(GoalStatus::Paused.stops_run());
    assert!(GoalStatus::Canceled.stops_run());
    assert!(!GoalStatus::Active.stops_run());
    assert!(!GoalStatus::BudgetLimited.stops_run());
}
