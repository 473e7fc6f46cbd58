//! The calls that act on goals: which ones there are, what they take, and what
//! they answer.

use crate::json::{law_field_is_found, list_view, string_or_null, text_or_null, Json, JsonView};
use crate::text::{cat2, opt_view, str_eq};
use vstd::prelude::*;
use vstd::string::*;

verus! {

#[derive(Debug, Clone, Copy, PartialEq, Eq, Structural)]
pub enum GoalStatus {
    Draft,
    Queued,
    Active,
    Paused,
    Blocked,
    BudgetLimited,
    Complete,
    Canceled,
}

impl GoalStatus {
    pub open spec fn name(self) -> Seq<char> {
        match self {
            GoalStatus::Draft => "draft"@,
            GoalStatus::Queued => "queued"@,
            GoalStatus::Active => "active"@,
            GoalStatus::Paused => "paused"@,
            GoalStatus::Blocked => "blocked"@,
            GoalStatus::BudgetLimited => "budget_limited"@,
            GoalStatus::Complete => "complete"@,
            GoalStatus::Canceled => "canceled"@,
        }
    }

    pub fn as_str(&self) -> (r: &'static str)
        ensures
            r@ == self.name(),
    {
        match self {
            GoalStatus::Draft => "draft",
            GoalStatus::Queued => "queued",
            GoalStatus::Active => "active",
            GoalStatus::Paused => "paused",
            GoalStatus::Blocked => "blocked",
            GoalStatus::BudgetLimited => "budget_limited",
            GoalStatus::Complete => "complete",
            GoalStatus::Canceled => "canceled",
        }
    }

    /// A run that serves the goal is stopped at once.
    pub fn stops_run(&self) -> (r: bool)
        ensures
            r == (*self == GoalStatus::Paused || *self == GoalStatus::Canceled),
    {
        match self {
            GoalStatus::Paused | GoalStatus::Canceled => true,
            _ => false,
        }
    }
}

/// What a goal asks for.
#[derive(Debug)]
pub struct GoalContract {
    pub objective: String,
    pub completion_criteria: String,
    pub constraints: Option<String>,
    pub budget: GoalBudget,
}

#[derive(Debug, Clone, Copy, PartialEq, Eq, Structural)]
pub struct GoalBudget {
    pub tokens: Option<u64>,
    pub turns: Option<u32>,
    pub wall_clock_ms: Option<u64>,
}

/// A goal, as far as it is shown. `budget` is its budget as it is written.
#[derive(Debug)]
pub struct Goal {
    pub id: String,
    pub status: GoalStatus,
    pub objective: String,
    pub completion_criteria: String,
    pub constraints: Option<String>,
    pub budget: Json,
    pub turns_used: u64,
    pub tokens_used: u64,
    pub consecutive_blocks: u64,
    pub block_reason: Option<String>,
    pub verification_evidence: Option<String>,
    pub session_id: Option<String>,
}

/// How a goal is shown.
pub open spec fn shown(goal: Goal) -> JsonView {
    JsonView::object().with_str("id"@, goal.id@).with_str("status"@, goal.status.name()).with_str(
        "objective"@,
        goal.objective@,
    ).with_str("completion_criteria"@, goal.completion_criteria@).with(
        "constraints"@,
        text_or_null(opt_view(goal.constraints)),
    ).with("budget"@, goal.budget@).with("turns_used"@, JsonView::Uint(goal.turns_used)).with(
        "tokens_used"@,
        JsonView::Uint(goal.tokens_used),
    ).with("consecutive_blocks"@, JsonView::Uint(goal.consecutive_blocks)).with(
        "block_reason"@,
        text_or_null(opt_view(goal.block_reason)),
    ).with("verification_evidence"@, text_or_null(opt_view(goal.verification_evidence)))
}

pub fn to_json(goal: &Goal) -> (r: Json)
    ensures
        r@ == shown(*goal),
{
    Json::object().with_str("id", goal.id.as_str()).with_str("status", goal.status.as_str()).with_str(
        "objective",
        goal.objective.as_str(),
    ).with_str("completion_criteria", goal.completion_criteria.as_str()).with(
        "constraints",
        string_or_null(&goal.constraints),
    ).with("budget", goal.budget.copy()).with("turns_used", Json::Uint(goal.turns_used)).with(
        "tokens_used",
        Json::Uint(goal.tokens_used),
    ).with("consecutive_blocks", Json::Uint(goal.consecutive_blocks)).with(
        "block_reason",
        string_or_null(&goal.block_reason),
    ).with("verification_evidence", string_or_null(&goal.verification_evidence))
}

/// All goals, in their order.
pub fn list_json(goals: &Vec<Goal>) -> (r: Json)
    ensures
        r@ == JsonView::Arr(goals@.map_values(|goal: Goal| shown(goal))),
{
    let mut items: Vec<Json> = Vec::new();
    let ghost wanted = goals@.map_values(|goal: Goal| shown(goal));
    let mut i: usize = 0;
    assert(list_view(items@) =~= wanted.take(0));
    while i < goals.len()
        invariant
            i <= goals@.len(),
            wanted == goals@.map_values(|goal: Goal| shown(goal)),
            list_view(items@) == wanted.take(i as int),
        decreases goals@.len() - i,
    {
        crate::json::push_json(&mut items, to_json(&goals[i]));
        assert(wanted.take(i + 1) =~= wanted.take(i as int).push(shown(goals@[i as int])));
        i = i + 1;
    }
    assert(wanted.take(i as int) =~= wanted);
    Json::array(items)
}

/// The goal in focus; null where there is none.
pub fn focus_json(goal: &Option<Goal>) -> (r: Json)
    ensures
        r@ == (match *goal {
            Some(g) => shown(g),
            None => JsonView::Null,
        }),
{
    match goal {
        Some(g) => to_json(g),
        None => Json::Null,
    }
}

/// What is done with a goal.
#[derive(Debug, Clone, Copy, PartialEq, Eq, Structural)]
pub enum Transition {
    Activate,
    Pause,
    Resume,
    Cancel,
    /// Raises the budget and goes on: the one way on for a goal that has used it
    /// up.
    Adjust,
}

#[derive(Debug, Clone, Copy, PartialEq, Eq, Structural)]
pub enum Method {
    List,
    Focus,
    Create,
    Transit(Transition),
}

pub open spec fn method_named(name: Seq<char>) -> Option<Method> {
    if name == "goal.list"@ {
        Some(Method::List)
    } else if name == "goal.focus"@ {
        Some(Method::Focus)
    } else if name == "goal.create"@ {
        Some(Method::Create)
    } else if name == "goal.activate"@ {
        Some(Method::Transit(Transition::Activate))
    } else if name == "goal.pause"@ {
        Some(Method::Transit(Transition::Pause))
    } else if name == "goal.resume"@ {
        Some(Method::Transit(Transition::Resume))
    } else if name == "goal.cancel"@ {
        Some(Method::Transit(Transition::Cancel))
    } else if name == "goal.adjust"@ {
        Some(Method::Transit(Transition::Adjust))
    } else {
        None
    }
}

/// The call of this name.
pub fn method_of(name: &str) -> (r: Result<Method, String>)
    ensures
        match method_named(name@) {
            Some(method) => r == Ok::<Method, String>(method),
            None => r matches Err(e) && e@ == "unknown goal method: "@ + name@,
        },
{
    if str_eq(name, "goal.list") {
        Ok(Method::List)
    } else if str_eq(name, "goal.focus") {
        Ok(Method::Focus)
    } else if str_eq(name, "goal.create") {
        Ok(Method::Create)
    } else if str_eq(name, "goal.activate") {
        Ok(Method::Transit(Transition::Activate))
    } else if str_eq(name, "goal.pause") {
        Ok(Method::Transit(Transition::Pause))
    } else if str_eq(name, "goal.resume") {
        Ok(Method::Transit(Transition::Resume))
    } else if str_eq(name, "goal.cancel") {
        Ok(Method::Transit(Transition::Cancel))
    } else if str_eq(name, "goal.adjust") {
        Ok(Method::Transit(Transition::Adjust))
    } else {
        Err(cat2("unknown goal method: ", name))
    }
}

/// Which goal is meant.
pub fn goal_id(params: &Json) -> (r: Result<String, String>)
    ensures
        match params@.text_under("id"@) {
            Some(id) => r matches Ok(found) && found@ == id,
            None => r matches Err(e) && e@ == "missing id"@,
        },
{
    match params.text_at("id") {
        Some(id) => Ok(id.clone()),
        None => Err("missing id".to_owned()),
    }
}

/// The session that a call speaks of.
pub fn session_of(params: &Json) -> (r: Option<String>)
    ensures
        opt_view(r) == params@.text_under("session_id"@),
{
    match params.text_at("session_id") {
        Some(id) => Some(id.clone()),
        None => None,
    }
}

/// A number of the budget that is asked for.
pub open spec fn budget_number(params: JsonView, key: Seq<char>) -> Option<u64> {
    match params.get("budget"@) {
        Some(budget) => budget.number_under(key),
        None => None,
    }
}

pub fn budget_at(params: &Json, key: &str) -> (r: Option<u64>)
    ensures
        r == budget_number(params@, key@),
{
    match params.get("budget") {
        Some(budget) => budget.number_at(key),
        None => None,
    }
}

/// The contract of a new goal. `turns` is the number of turns that is asked for,
/// as far as it is allowed.
pub fn contract_of(params: &Json, turns: Result<Option<u32>, String>) -> (r: Result<
    GoalContract,
    String,
>)
    ensures
        match params@.text_under("objective"@) {
            None => r matches Err(e) && e@ == "missing objective"@,
            Some(objective) => match params@.text_under("completion_criteria"@) {
                None => r matches Err(e) && e@ == "missing completion_criteria"@,
                Some(criteria) => match turns {
                    Err(error) => r == Err::<GoalContract, String>(error),
                    Ok(allowed) => {
                        &&& r matches Ok(contract)
                        &&& contract.objective@ == objective
                        &&& contract.completion_criteria@ == criteria
                        &&& opt_view(contract.constraints) == params@.text_under("constraints"@)
                        &&& contract.budget == (GoalBudget {
                            tokens: budget_number(params@, "tokens"@),
                            turns: allowed,
                            wall_clock_ms: budget_number(params@, "wall_clock_ms"@),
                        })
                    },
                },
            },
        },
{
    let objective = match params.text_at("objective") {
        Some(text) => text.clone(),
        None => return Err("missing objective".to_owned()),
    };
    let completion_criteria = match params.text_at("completion_criteria") {
        Some(text) => text.clone(),
        None => return Err("missing completion_criteria".to_owned()),
    };
    let constraints = match params.text_at("constraints") {
        Some(text) => Some(text.clone()),
        None => None,
    };
    let turns = match turns {
        Ok(turns) => turns,
        Err(error) => return Err(error),
    };
    Ok(
        GoalContract {
            objective,
            completion_criteria,
            constraints,
            budget: GoalBudget {
                tokens: budget_at(params, "tokens"),
                turns,
                wall_clock_ms: budget_at(params, "wall_clock_ms"),
            },
        },
    )
}

/// What is announced where a goal has changed.
#[derive(Debug)]
pub struct GoalUpdate {
    pub id: String,
    pub status: &'static str,
}

pub fn update_of(goal: &Goal) -> (r: GoalUpdate)
    ensures
        r.id@ == goal.id@,
        r.status@ == goal.status.name(),
{
    GoalUpdate { id: goal.id.clone(), status: goal.status.as_str() }
}

/// No two statuses have one name.
pub proof fn law_statuses_have_names_of_their_own(a: GoalStatus, b: GoalStatus)
    requires
        a != b,
    ensures
        a.name() != b.name(),
{
    reveal_strlit("draft");
    reveal_strlit("queued");
    reveal_strlit("active");
    reveal_strlit("paused");
    reveal_strlit("blocked");
    reveal_strlit("budget_limited");
    reveal_strlit("complete");
    reveal_strlit("canceled");
    assert("draft"@.len() == 5);
    assert("queued"@.len() == 6 && "queued"@[0] == 'q');
    assert("active"@.len() == 6 && "active"@[0] == 'a');
    assert("paused"@.len() == 6 && "paused"@[0] == 'p');
    assert("blocked"@.len() == 7);
    assert("budget_limited"@.len() == 14);
    assert("complete"@.len() == 8 && "complete"@[1] == 'o');
    assert("canceled"@.len() == 8 && "canceled"@[1] == 'a');
}

/// What is shown of a goal can be read back from it.
pub proof fn law_goal_is_shown(goal: Goal)
    ensures
        shown(goal).text_under("id"@) == Some(goal.id@),
        shown(goal).text_under("status"@) == Some(goal.status.name()),
        shown(goal).text_under("objective"@) == Some(goal.objective@),
        shown(goal).text_under("completion_criteria"@) == Some(goal.completion_criteria@),
        shown(goal).text_under("constraints"@) == opt_view(goal.constraints),
        shown(goal).get("budget"@) == Some(goal.budget@),
        shown(goal).number_under("turns_used"@) == Some(goal.turns_used),
        shown(goal).number_under("tokens_used"@) == Some(goal.tokens_used),
        shown(goal).number_under("consecutive_blocks"@) == Some(goal.consecutive_blocks),
        shown(goal).text_under("block_reason"@) == opt_view(goal.block_reason),
        shown(goal).text_under("verification_evidence"@) == opt_view(goal.verification_evidence),
{
    broadcast use law_field_is_found;

    reveal_strlit("id");
    reveal_strlit("status");
    reveal_strlit("objective");
    reveal_strlit("completion_criteria");
    reveal_strlit("constraints");
    reveal_strlit("budget");
    reveal_strlit("turns_used");
    reveal_strlit("tokens_used");
    reveal_strlit("consecutive_blocks");
    reveal_strlit("block_reason");
    reveal_strlit("verification_evidence");
    assert("id"@.len() == 2 && "status"@.len() == 6 && "objective"@.len() == 9);
    assert("completion_criteria"@.len() == 19 && "constraints"@.len() == 11 && "budget"@.len() == 6);
    assert("turns_used"@.len() == 10 && "tokens_used"@.len() == 11);
    assert("consecutive_blocks"@.len() == 18 && "block_reason"@.len() == 12);
    assert("verification_evidence"@.len() == 21);
    assert("status"@[0] == 's' && "budget"@[0] == 'b');
    assert("constraints"@[0] == 'c' && "tokens_used"@[0] == 't');
    let none = JsonView::object();
    assert(none is Obj);
    assert forall|key: Seq<char>| #[trigger] none.get(key) is None by {}
    let v1 = none.with_str("id"@, goal.id@);
    let v2 = v1.with_str("status"@, goal.status.name());
    let v3 = v2.with_str("objective"@, goal.objective@);
    let v4 = v3.with_str("completion_criteria"@, goal.completion_criteria@);
    let v5 = v4.with("constraints"@, text_or_null(opt_view(goal.constraints)));
    let v6 = v5.with("budget"@, goal.budget@);
    let v7 = v6.with("turns_used"@, JsonView::Uint(goal.turns_used));
    let v8 = v7.with("tokens_used"@, JsonView::Uint(goal.tokens_used));
    let v9 = v8.with("consecutive_blocks"@, JsonView::Uint(goal.consecutive_blocks));
    let v10 = v9.with("block_reason"@, text_or_null(opt_view(goal.block_reason)));
    assert(v1 is Obj && v2 is Obj && v3 is Obj && v4 is Obj && v5 is Obj && v6 is Obj && v7 is Obj);
    assert(v8 is Obj && v9 is Obj && v10 is Obj);
}

/// A method is named by its own word behind `goal.`, and no two methods share a
/// name.
pub proof fn law_methods_have_names_of_their_own(a: Seq<char>, b: Seq<char>)
    ensures
        method_named(a) is Some && method_named(a) == method_named(b) ==> a == b,
        method_named("goal.list"@) == Some(Method::List),
        method_named("goal.focus"@) == Some(Method::Focus),
        method_named("goal.create"@) == Some(Method::Create),
        method_named("goal.activate"@) == Some(Method::Transit(Transition::Activate)),
        method_named("goal.pause"@) == Some(Method::Transit(Transition::Pause)),
        method_named("goal.resume"@) == Some(Method::Transit(Transition::Resume)),
        method_named("goal.cancel"@) == Some(Method::Transit(Transition::Cancel)),
        method_named("goal.adjust"@) == Some(Method::Transit(Transition::Adjust)),
{
    reveal_strlit("goal.list");
    reveal_strlit("goal.focus");
    reveal_strlit("goal.create");
    reveal_strlit("goal.activate");
    reveal_strlit("goal.pause");
    reveal_strlit("goal.resume");
    reveal_strlit("goal.cancel");
    reveal_strlit("goal.adjust");
    assert("goal.list"@[5] == 'l' && "goal.focus"@[5] == 'f' && "goal.create"@[6] == 'r');
    assert("goal.create"@[5] == 'c' && "goal.activate"@[6] == 'c' && "goal.pause"@[5] == 'p');
    assert("goal.resume"@[5] == 'r' && "goal.cancel"@[5] == 'c' && "goal.cancel"@[6] == 'a');
    assert("goal.activate"@[5] == 'a' && "goal.adjust"@[5] == 'a' && "goal.adjust"@[6] == 'd');
}

/// The budget that a contract sets is read from the number under its name, and from
/// nothing else.
pub proof fn law_budget_is_read(params: JsonView, key: Seq<char>, n: u64)
    ensures
        budget_number(params, key) == Some(n) <==> (params.get("budget"@) matches Some(budget)
            && budget.get(key) == Some(JsonView::Uint(n))),
{
}

} // verus!
