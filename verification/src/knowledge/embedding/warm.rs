//! Asking for the vectors that are missing, in the background.

use crate::json::{parse_json, parsed, Json, JsonView};
use crate::knowledge::embedding::Protocol;
use crate::llm::managed::TokenUsage;
use crate::text::{cat2, cat3, cat4, decimal, decimal_of};
use vstd::prelude::*;
use vstd::string::*;

verus! {

/// The longest time that one request may take, in milliseconds.
pub const REQUEST_TIMEOUT: u64 = 30_000;

/// So many texts are asked for in one request.
pub const BATCH: usize = 96;

/// For whom vectors are asked for.
#[derive(Debug)]
pub struct EmbeddingRuntime {
    pub goal_id: Option<String>,
    pub session_id: Option<String>,
}

/// What a goal leaves for a request: time without end, some milliseconds, or
/// nothing in a status of this name.
#[derive(Debug)]
pub enum GoalBudget {
    Unbounded,
    WallRemaining(u64),
    Stop(String),
}

/// How long a request may take. `budget` is that of the goal, or why it could not
/// be loaded; without a goal it does not matter.
pub fn request_timeout(runtime: &EmbeddingRuntime, budget: Result<GoalBudget, String>) -> (r: Result<
    u64,
    String,
>)
    ensures
        match runtime.goal_id {
            None => r == Ok::<u64, String>(REQUEST_TIMEOUT),
            Some(id) => match budget {
                Err(error) => r matches Err(e) && e@ == "goal "@ + id@
                    + " cannot be loaded before embedding: "@ + error@,
                Ok(GoalBudget::Unbounded) => r == Ok::<u64, String>(REQUEST_TIMEOUT),
                Ok(GoalBudget::WallRemaining(left)) => r == Ok::<u64, String>(
                    if left < REQUEST_TIMEOUT {
                        left
                    } else {
                        REQUEST_TIMEOUT
                    },
                ),
                Ok(GoalBudget::Stop(status)) => r matches Err(e) && e@ == "goal "@ + id@
                    + " cannot start embedding in status "@ + status@,
            },
        },
{
    let id = match &runtime.goal_id {
        None => return Ok(REQUEST_TIMEOUT),
        Some(id) => id,
    };
    match budget {
        Err(error) => Err(
            cat4("goal ", id.as_str(), " cannot be loaded before embedding: ", error.as_str()),
        ),
        Ok(GoalBudget::Unbounded) => Ok(REQUEST_TIMEOUT),
        Ok(GoalBudget::WallRemaining(left)) => Ok(
            if left < REQUEST_TIMEOUT {
                left
            } else {
                REQUEST_TIMEOUT
            },
        ),
        Ok(GoalBudget::Stop(status)) => Err(
            cat4("goal ", id.as_str(), " cannot start embedding in status ", status.as_str()),
        ),
    }
}

/// The tokens that an answer reports: input alone, vectors are no output.
pub open spec fn usage_in(body: JsonView, protocol: Protocol) -> Option<TokenUsage> {
    let input = match protocol {
        Protocol::OpenAi => match body.get("usage"@) {
            None => None,
            Some(usage) => match usage.number_under("total_tokens"@) {
                Some(total) => Some(total),
                None => usage.number_under("prompt_tokens"@),
            },
        },
        Protocol::Ollama => body.number_under("prompt_eval_count"@),
    };
    match input {
        Some(input) => Some(TokenUsage { input, output: 0 }),
        None => None,
    }
}

pub fn usage_of(body: &Json, protocol: Protocol) -> (r: Option<TokenUsage>)
    ensures
        r == usage_in(body@, protocol),
{
    let input = match protocol {
        Protocol::OpenAi => match body.get("usage") {
            None => None,
            Some(usage) => match usage.number_at("total_tokens") {
                Some(total) => Some(total),
                None => usage.number_at("prompt_tokens"),
            },
        },
        Protocol::Ollama => body.number_at("prompt_eval_count"),
    };
    match input {
        Some(input) => Some(TokenUsage { input, output: 0 }),
        None => None,
    }
}

/// The tokens that the text of an answer reports.
pub fn parse_usage(body: &str, protocol: Protocol) -> (r: Option<TokenUsage>)
    ensures
        r == (match parsed(body@) {
            Ok(value) => usage_in(value, protocol),
            Err(_) => None,
        }),
{
    match parse_json(body) {
        Ok(value) => usage_of(&value, protocol),
        Err(_) => None,
    }
}

/// How a request ended.
#[derive(Debug)]
pub enum Fetch {
    /// It was not admitted, and why.
    Refused(String),
    /// It was not admitted in time.
    NotAdmitted,
    /// It was cancelled before it was sent.
    CancelledBefore,
    /// It was cancelled on its way.
    CancelledAfter,
    /// It failed, and why.
    Failed(String),
    /// No answer came within so many seconds.
    TimedOut(String),
    /// It was answered with so many vectors; none could be read where there is no
    /// number.
    Answered(Option<usize>),
}

/// What follows from it.
#[derive(Debug)]
pub struct Verdict {
    pub result: Result<(), String>,
    /// What is recorded of the provider: nothing of a request that was cancelled
    /// or not sent.
    pub health: Option<bool>,
    /// Whether the request is metered.
    pub metered: bool,
}

pub open spec fn fetch_error(fetch: Fetch, texts: int) -> Option<Seq<char>> {
    match fetch {
        Fetch::Refused(error) => Some("embedding admission failed: "@ + error@),
        Fetch::NotAdmitted => Some("embedding admission timed out"@),
        Fetch::CancelledBefore | Fetch::CancelledAfter => Some("embedding request cancelled"@),
        Fetch::Failed(error) => Some(error@),
        Fetch::TimedOut(seconds) => Some("embedding request timed out after "@ + seconds@ + "s"@),
        Fetch::Answered(None) => Some("embedding response parse failed"@),
        Fetch::Answered(Some(count)) => if count == texts {
            None
        } else {
            Some(
                "embedding count mismatch: "@ + decimal(count as nat) + " for "@ + decimal(
                    texts as nat,
                ) + " texts"@,
            )
        },
    }
}

/// It was sent, and not only asked for.
pub open spec fn was_sent(fetch: Fetch) -> bool {
    !(fetch is Refused || fetch is NotAdmitted || fetch is CancelledBefore)
}

/// Judges a request for vectors of so many texts.
pub fn judge(fetch: Fetch, texts: usize) -> (r: Verdict)
    ensures
        match fetch_error(fetch, texts as int) {
            None => r.result is Ok,
            Some(why) => r.result matches Err(e) && e@ == why,
        },
        r.metered == was_sent(fetch),
        r.health == (if !was_sent(fetch) || fetch is CancelledAfter {
            None
        } else {
            Some(fetch_error(fetch, texts as int) is None)
        }),
{
    match fetch {
        Fetch::Refused(error) => Verdict {
            result: Err(cat2("embedding admission failed: ", error.as_str())),
            health: None,
            metered: false,
        },
        Fetch::NotAdmitted => Verdict {
            result: Err("embedding admission timed out".to_owned()),
            health: None,
            metered: false,
        },
        Fetch::CancelledBefore => Verdict {
            result: Err("embedding request cancelled".to_owned()),
            health: None,
            metered: false,
        },
        Fetch::CancelledAfter => Verdict {
            result: Err("embedding request cancelled".to_owned()),
            health: None,
            metered: true,
        },
        Fetch::Failed(error) => Verdict { result: Err(error), health: Some(false), metered: true },
        Fetch::TimedOut(seconds) => Verdict {
            result: Err(cat3("embedding request timed out after ", seconds.as_str(), "s")),
            health: Some(false),
            metered: true,
        },
        Fetch::Answered(None) => Verdict {
            result: Err("embedding response parse failed".to_owned()),
            health: Some(false),
            metered: true,
        },
        Fetch::Answered(Some(count)) => if count == texts {
            Verdict { result: Ok(()), health: Some(true), metered: true }
        } else {
            let got = decimal_of(count as u64);
            let wanted = decimal_of(texts as u64);
            let head = cat4("embedding count mismatch: ", got.as_str(), " for ", wanted.as_str());
            Verdict {
                result: Err(cat2(head.as_str(), " texts")),
                health: Some(false),
                metered: true,
            }
        },
    }
}

/// Every request that was sent is metered, whatever came of it.
pub proof fn law_sent_requests_are_metered(fetch: Fetch)
    ensures
        was_sent(fetch) <==> (fetch is CancelledAfter || fetch is Failed || fetch is TimedOut
            || fetch is Answered),
{
}

/// What is reported of a request.
#[derive(Debug, Clone, Copy, PartialEq, Eq, Structural)]
pub struct RunStats {
    pub ttft_ms: u64,
    pub duration_ms: u64,
    pub input_tokens: u64,
    pub output_tokens: u64,
    pub unmetered_calls: u64,
    pub usage_complete: bool,
    pub last_input_tokens: u64,
    pub tokens_per_sec: u64,
}

/// The report on a request by what it took. One without usage counts as a call
/// that was not metered, and not as one that took nothing.
pub fn run_stats(usage: Option<TokenUsage>, duration_ms: u64) -> (r: RunStats)
    requires
        usage matches Some(u) ==> u.output * 1000 <= u64::MAX,
    ensures
        ({
            let u = match usage {
                Some(u) => u,
                None => TokenUsage { input: 0, output: 0 },
            };
            &&& r.ttft_ms == 0
            &&& r.duration_ms == duration_ms
            &&& r.input_tokens == u.input
            &&& r.last_input_tokens == u.input
            &&& r.output_tokens == u.output
            &&& r.unmetered_calls == (if usage is None {
                1int
            } else {
                0
            })
            &&& r.usage_complete == (usage is Some)
            &&& r.tokens_per_sec == (if duration_ms == 0 {
                0
            } else {
                u.output * 1000 / duration_ms as int
            })
        }),
{
    let (input, output, unmetered_calls): (u64, u64, u64) = match usage {
        Some(u) => (u.input, u.output, 0),
        None => (0, 0, 1),
    };
    let tokens_per_sec: u64 = if duration_ms == 0 {
        0
    } else {
        output * 1000 / duration_ms
    };
    RunStats {
        ttft_ms: 0,
        duration_ms,
        input_tokens: input,
        output_tokens: output,
        unmetered_calls,
        usage_complete: unmetered_calls == 0,
        last_input_tokens: input,
        tokens_per_sec,
    }
}

/// What is charged to the goal: the tokens of both kinds, or that they are not
/// known.
pub fn charged(usage: Option<TokenUsage>) -> (r: Option<u64>)
    ensures
        r == (match usage {
            Some(u) => Some(
                if u.input + u.output > u64::MAX {
                    u64::MAX
                } else {
                    (u.input + u.output) as u64
                },
            ),
            None => None,
        }),
{
    match usage {
        Some(u) => Some(u.input.saturating_add(u.output)),
        None => None,
    }
}

/// The texts in batches, in order.
pub open spec fn batches_of(texts: Seq<String>) -> Seq<Seq<String>>
    decreases texts.len(),
{
    if texts.len() == 0 {
        Seq::empty()
    } else if texts.len() <= BATCH {
        seq![texts]
    } else {
        seq![texts.take(BATCH as int)] + batches_of(texts.skip(BATCH as int))
    }
}

pub fn batches(texts: Vec<String>) -> (r: Vec<Vec<String>>)
    ensures
        r@.map_values(|batch: Vec<String>| batch@) == batches_of(texts@),
{
    let mut rest = texts;
    let ghost all = texts@;
    let mut out: Vec<Vec<String>> = Vec::new();
    assert(out@.map_values(|batch: Vec<String>| batch@) + batches_of(rest@) =~= batches_of(all));
    while rest.len() > 0
        invariant
            batches_of(all) == out@.map_values(|batch: Vec<String>| batch@) + batches_of(rest@),
        decreases rest@.len(),
    {
        let ghost before = rest@;
        let ghost done = out@;
        if rest.len() <= BATCH {
            let ghost last = rest@;
            out.push(rest);
            rest = Vec::new();
            assert(out@.map_values(|batch: Vec<String>| batch@) =~= done.map_values(
                |batch: Vec<String>| batch@,
            ).push(last));
        } else {
            let behind = rest.split_off(BATCH);
            let ghost first = rest@;
            assert(first =~= before.take(BATCH as int));
            assert(behind@ =~= before.skip(BATCH as int));
            out.push(rest);
            rest = behind;
            assert(out@.map_values(|batch: Vec<String>| batch@) =~= done.map_values(
                |batch: Vec<String>| batch@,
            ).push(first));
        }
        assert(out@.map_values(|batch: Vec<String>| batch@) + batches_of(rest@) =~= done.map_values(
            |batch: Vec<String>| batch@,
        ) + batches_of(before));
    }
    assert(out@.map_values(|batch: Vec<String>| batch@) + Seq::<Seq<String>>::empty()
        =~= out@.map_values(|batch: Vec<String>| batch@));
    out
}

pub open spec fn all_of(batches: Seq<Seq<String>>) -> Seq<String>
    decreases batches.len(),
{
    if batches.len() == 0 {
        Seq::empty()
    } else {
        batches[0] + all_of(batches.skip(1))
    }
}

/// The batches hold every text once and in order. None is empty or larger than the
/// most that is asked at once, and all but the last are as large as that.
pub proof fn law_batches_hold_every_text(texts: Seq<String>)
    ensures
        all_of(batches_of(texts)) == texts,
        forall|i: int|
            0 <= i < batches_of(texts).len() ==> 0 < (#[trigger] batches_of(texts)[i]).len() <= 96,
        forall|i: int|
            0 <= i < batches_of(texts).len() - 1 ==> (#[trigger] batches_of(texts)[i]).len() == 96,
    decreases texts.len(),
{
    let out = batches_of(texts);
    reveal_with_fuel(all_of, 2);
    if texts.len() == 0 {
        assert(all_of(out) =~= texts);
    } else if texts.len() <= BATCH {
        assert(out.skip(1) =~= Seq::<Seq<String>>::empty());
        assert(all_of(out) =~= texts);
    } else {
        let rest = texts.skip(BATCH as int);
        law_batches_hold_every_text(rest);
        assert(out.skip(1) =~= batches_of(rest));
        assert(all_of(out) =~= texts);
        assert forall|i: int| 1 <= i < out.len() implies #[trigger] out[i] == batches_of(rest)[i
            - 1] by {}
    }
}

/// What an answer cost is the tokens it names, and nothing for output: the total
/// or else the prompt's of one protocol, and the prompt's of the other. Without
/// them it is unknown.
pub proof fn law_usage_is_what_the_answer_names(body: JsonView)
    ensures
        ({
            let usage = body.get("usage"@);
            let total = match usage {
                Some(u) => u.number_under("total_tokens"@),
                None => None,
            };
            let prompt = match usage {
                Some(u) => u.number_under("prompt_tokens"@),
                None => None,
            };
            &&& total matches Some(n) ==> usage_in(body, Protocol::OpenAi) == Some(
                TokenUsage { input: n, output: 0 },
            )
            &&& total is None && prompt is Some ==> usage_in(body, Protocol::OpenAi) == Some(
                TokenUsage { input: prompt->0, output: 0 },
            )
            &&& total is None && prompt is None ==> usage_in(body, Protocol::OpenAi) is None
            &&& usage_in(body, Protocol::Ollama) == (match body.number_under("prompt_eval_count"@) {
                Some(n) => Some(TokenUsage { input: n, output: 0 }),
                None => None,
            })
        }),
{
}

/// A fetch succeeded exactly where it was answered with a vector for each text.
pub proof fn law_only_full_answers_succeed(fetch: Fetch, texts: int)
    ensures
        fetch_error(fetch, texts) is None <==> (fetch matches Fetch::Answered(Some(count)) && count
            == texts),
        fetch matches Fetch::Failed(error) ==> fetch_error(fetch, texts) == Some(error@),
{
}

} // verus!
