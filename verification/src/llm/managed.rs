//! One managed text request: from the checks before it starts to the settlement
//! of what it cost.

use crate::llm::mrm::manager::CallOutcome;
use crate::llm::stream_limit::StreamBudget;
use crate::llm::types::Delta;
use crate::text::{cat3, cat5, decimal, decimal_of, opt_view, str_eq};
use vstd::prelude::*;
use vstd::string::*;

verus! {

pub const CANCELLED_ERROR: &'static str = "request cancelled";

pub fn is_cancelled_error(error: &str) -> (r: bool)
    ensures
        r == (error@ == CANCELLED_ERROR@),
{
    str_eq(error, CANCELLED_ERROR)
}

#[derive(Debug, Clone, Copy, PartialEq, Eq, Structural)]
pub enum ManagedErrorKind {
    Cancelled,
    Admission,
    Local,
    Provider,
    Timeout,
}

/// Tokens that a provider reported for one call.
#[derive(Debug, Clone, Copy, PartialEq, Eq, Structural)]
pub struct TokenUsage {
    pub input: u64,
    pub output: u64,
}

#[derive(Debug, PartialEq, Eq)]
pub struct ManagedError {
    pub kind: ManagedErrorKind,
    pub message: String,
    pub request_started: bool,
    pub usage_reported: bool,
    pub usage: Option<TokenUsage>,
    pub metering_warning: Option<String>,
}

#[verifier::ext_equal]
pub struct ErrorView {
    pub kind: ManagedErrorKind,
    pub message: Seq<char>,
    pub request_started: bool,
    pub usage_reported: bool,
    pub usage: Option<TokenUsage>,
    pub metering_warning: Option<Seq<char>>,
}

impl View for ManagedError {
    type V = ErrorView;

    open spec fn view(&self) -> ErrorView {
        ErrorView {
            kind: self.kind,
            message: self.message@,
            request_started: self.request_started,
            usage_reported: self.usage_reported,
            usage: self.usage,
            metering_warning: opt_view(self.metering_warning),
        }
    }
}

#[derive(Debug, PartialEq, Eq)]
pub struct ManagedOutput {
    pub text: String,
    /// None says that the provider reported no usage, not that there was none.
    pub usage: Option<TokenUsage>,
    pub metering_warning: Option<String>,
}

#[verifier::ext_equal]
pub struct OutputView {
    pub text: Seq<char>,
    pub usage: Option<TokenUsage>,
    pub metering_warning: Option<Seq<char>>,
}

impl View for ManagedOutput {
    type V = OutputView;

    open spec fn view(&self) -> OutputView {
        OutputView {
            text: self.text@,
            usage: self.usage,
            metering_warning: opt_view(self.metering_warning),
        }
    }
}

/// What a request came to, by its view.
pub open spec fn result_view(result: Result<ManagedOutput, ManagedError>) -> Result<
    OutputView,
    ErrorView,
> {
    match result {
        Ok(output) => Ok(output@),
        Err(e) => Err(e@),
    }
}

#[derive(Debug, Clone, Copy, PartialEq, Eq, Structural)]
pub enum CircuitPolicy {
    /// The result counts for the provider's circuit.
    Record,
    /// A probe with a credential that is not stored says nothing of it.
    Neutral,
}

/// An error of this kind; usage is reported exactly where there is some.
pub open spec fn error_of(
    kind: ManagedErrorKind,
    message: Seq<char>,
    request_started: bool,
    usage: Option<TokenUsage>,
    metering_warning: Option<Seq<char>>,
) -> ErrorView {
    ErrorView {
        kind,
        message,
        request_started,
        usage_reported: usage is Some,
        usage,
        metering_warning,
    }
}

pub fn managed_error(
    kind: ManagedErrorKind,
    message: String,
    request_started: bool,
    usage: Option<TokenUsage>,
    metering_warning: Option<String>,
) -> (r: ManagedError)
    ensures
        r@ == error_of(kind, message@, request_started, usage, opt_view(metering_warning)),
{
    ManagedError {
        kind,
        message,
        request_started,
        usage_reported: usage.is_some(),
        usage,
        metering_warning,
    }
}

fn before_start(kind: ManagedErrorKind, message: String) -> (r: ManagedError)
    ensures
        r@ == error_of(kind, message@, false, None, None),
{
    managed_error(kind, message, false, None, None)
}

/// Why a request ends before anything is asked of the provider, if it does.
pub open spec fn request_refusal(cancelled: bool, dispatch: Result<(), String>) -> Option<ErrorView> {
    if cancelled {
        Some(error_of(ManagedErrorKind::Cancelled, CANCELLED_ERROR@, false, None, None))
    } else {
        match dispatch {
            Err(message) => Some(error_of(ManagedErrorKind::Local, message@, false, None, None)),
            Ok(_) => None,
        }
    }
}

/// What a check came to, by its view.
pub open spec fn check_view(result: Result<(), ManagedError>) -> Option<ErrorView> {
    match result {
        Ok(_) => None,
        Err(e) => Some(e@),
    }
}

/// The first checks: a request that was cancelled, or that cannot be dispatched,
/// ends before anything is asked of the provider.
pub fn check_request(cancelled: bool, dispatch: Result<(), String>) -> (r: Result<(), ManagedError>)
    ensures
        check_view(r) == request_refusal(cancelled, dispatch),
        if cancelled {
            r matches Err(e) && e@ == error_of(
                ManagedErrorKind::Cancelled,
                CANCELLED_ERROR@,
                false,
                None,
                None,
            )
        } else {
            match dispatch {
                Err(message) => r matches Err(e) && e@ == error_of(
                    ManagedErrorKind::Local,
                    message@,
                    false,
                    None,
                    None,
                ),
                Ok(_) => r is Ok,
            }
        },
{
    if cancelled {
        return Err(before_start(ManagedErrorKind::Cancelled, CANCELLED_ERROR.to_owned()));
    }
    match dispatch {
        Err(message) => Err(before_start(ManagedErrorKind::Local, message)),
        Ok(_) => Ok(()),
    }
}

/// How the wait for a permit ended without one.
#[derive(Debug)]
pub enum Unadmitted {
    Cancelled,
    Refused(String),
    /// The deadline passed; the text gives the timeout in seconds.
    TimedOut(String),
}

/// A request that got no permit.
pub fn refuse(provider: &str, how: Unadmitted) -> (r: ManagedError)
    ensures
        r@ == (match how {
            Unadmitted::Cancelled => error_of(
                ManagedErrorKind::Cancelled,
                CANCELLED_ERROR@,
                false,
                None,
                None,
            ),
            Unadmitted::Refused(message) => error_of(
                ManagedErrorKind::Admission,
                message@,
                false,
                None,
                None,
            ),
            Unadmitted::TimedOut(seconds) => error_of(
                ManagedErrorKind::Admission,
                "provider "@ + provider@ + " local resource queue timed out after "@ + seconds@
                    + "s"@,
                false,
                None,
                None,
            ),
        }),
{
    match how {
        Unadmitted::Cancelled => before_start(
            ManagedErrorKind::Cancelled,
            CANCELLED_ERROR.to_owned(),
        ),
        Unadmitted::Refused(message) => before_start(ManagedErrorKind::Admission, message),
        Unadmitted::TimedOut(seconds) => {
            let text = cat5(
                "provider ",
                provider,
                " local resource queue timed out after ",
                seconds.as_str(),
                "s",
            );
            before_start(ManagedErrorKind::Admission, text)
        },
    }
}

/// The time that must be left for the provider: a quarter of the timeout, at
/// most a second. Both in nanoseconds.
pub open spec fn provider_floor(timeout: u64) -> u64 {
    if timeout / 4 < 1_000_000_000 {
        (timeout / 4) as u64
    } else {
        1_000_000_000
    }
}

/// Why a request does not start that has its permit, if it does not.
pub open spec fn start_refusal(
    provider: Seq<char>,
    timeout: u64,
    remaining: u64,
    cancelled: bool,
    barrier: Result<(), String>,
) -> Option<ErrorView> {
    if remaining < provider_floor(timeout) {
        Some(
            error_of(
                ManagedErrorKind::Admission,
                "provider "@ + provider + " local resource queue exhausted the request deadline"@,
                false,
                None,
                None,
            ),
        )
    } else {
        request_refusal(cancelled, barrier)
    }
}

/// The last checks before the request starts: there must be time left for the
/// provider, nobody must have cancelled, and the caller's own start marker must
/// have been written. `remaining` is what is left of the timeout.
pub fn check_start(
    provider: &str,
    timeout: u64,
    remaining: u64,
    cancelled: bool,
    barrier: Result<(), String>,
) -> (r: Result<(), ManagedError>)
    ensures
        check_view(r) == start_refusal(provider@, timeout, remaining, cancelled, barrier),
        if remaining < provider_floor(timeout) {
            r matches Err(e) && e@ == error_of(
                ManagedErrorKind::Admission,
                "provider "@ + provider@ + " local resource queue exhausted the request deadline"@,
                false,
                None,
                None,
            )
        } else if cancelled {
            r matches Err(e) && e@ == error_of(
                ManagedErrorKind::Cancelled,
                CANCELLED_ERROR@,
                false,
                None,
                None,
            )
        } else {
            match barrier {
                Err(message) => r matches Err(e) && e@ == error_of(
                    ManagedErrorKind::Local,
                    message@,
                    false,
                    None,
                    None,
                ),
                Ok(_) => r is Ok,
            }
        },
{
    let quarter: u64 = timeout / 4;
    let floor: u64 = if quarter < 1_000_000_000 {
        quarter
    } else {
        1_000_000_000
    };
    if remaining < floor {
        let text = cat3(
            "provider ",
            provider,
            " local resource queue exhausted the request deadline",
        );
        return Err(before_start(ManagedErrorKind::Admission, text));
    }
    if cancelled {
        return Err(before_start(ManagedErrorKind::Cancelled, CANCELLED_ERROR.to_owned()));
    }
    match barrier {
        Err(message) => Err(before_start(ManagedErrorKind::Local, message)),
        Ok(_) => Ok(()),
    }
}

/// What was collected of an answer so far.
#[derive(Debug)]
pub struct Collector {
    pub text: String,
    pub input: u64,
    pub output: u64,
    /// The same sums, wrapping: these are what a failed call reports.
    pub wrapped_input: u64,
    pub wrapped_output: u64,
    pub usage_reported: bool,
    /// Whether the provider sent anything valid.
    pub answered: bool,
    pub metering_warning: Option<String>,
    pub budget: StreamBudget,
}

#[verifier::ext_equal]
pub struct CollectorView {
    pub text: Seq<char>,
    pub input: u64,
    pub output: u64,
    pub wrapped_input: u64,
    pub wrapped_output: u64,
    pub usage_reported: bool,
    pub answered: bool,
    pub metering_warning: Option<Seq<char>>,
    pub budget: StreamBudget,
}

impl View for Collector {
    type V = CollectorView;

    open spec fn view(&self) -> CollectorView {
        CollectorView {
            text: self.text@,
            input: self.input,
            output: self.output,
            wrapped_input: self.wrapped_input,
            wrapped_output: self.wrapped_output,
            usage_reported: self.usage_reported,
            answered: self.answered,
            metering_warning: opt_view(self.metering_warning),
            budget: self.budget,
        }
    }
}

/// What an event calls for.
#[derive(Debug)]
pub enum CollectStep {
    Continue,
    /// Usage that is to be recorded for the provider.
    Meter { input: u64, output: u64 },
    Finished,
    Failed(String),
}

pub open spec fn plus_saturating(a: u64, b: u64) -> u64 {
    if a + b > u64::MAX {
        u64::MAX
    } else {
        (a + b) as u64
    }
}

pub open spec fn plus_wrapping(a: u64, b: u64) -> u64 {
    if a + b > u64::MAX {
        (a + b - 0x1_0000_0000_0000_0000) as u64
    } else {
        (a + b) as u64
    }
}

/// The collector after an event that was within the budget. Everything but an
/// error is an answer.
pub open spec fn collected(c: CollectorView, delta: Delta) -> CollectorView {
    match delta {
        Delta::Text(chunk) => CollectorView { text: c.text + chunk@, answered: true, ..c },
        Delta::Usage { input, output } => CollectorView {
            usage_reported: true,
            input: plus_saturating(c.input, input),
            output: plus_saturating(c.output, output),
            wrapped_input: plus_wrapping(c.wrapped_input, input),
            wrapped_output: plus_wrapping(c.wrapped_output, output),
            answered: true,
            ..c
        },
        Delta::Error(_) => c,
        _ => CollectorView { answered: true, ..c },
    }
}

/// What an event calls for, by its view.
pub enum StepView {
    Continue,
    Meter { input: u64, output: u64 },
    Finished,
    Failed(Seq<char>),
}

impl View for CollectStep {
    type V = StepView;

    open spec fn view(&self) -> StepView {
        match *self {
            CollectStep::Continue => StepView::Continue,
            CollectStep::Meter { input, output } => StepView::Meter { input, output },
            CollectStep::Finished => StepView::Finished,
            CollectStep::Failed(error) => StepView::Failed(error@),
        }
    }
}

impl CollectorView {
    /// A collector that has read nothing.
    pub open spec fn fresh() -> CollectorView {
        CollectorView {
            text: Seq::empty(),
            input: 0,
            output: 0,
            wrapped_input: 0,
            wrapped_output: 0,
            usage_reported: false,
            answered: false,
            metering_warning: None,
            budget: StreamBudget {
                bytes: 0,
                events: 0,
                byte_limit: crate::llm::stream_limit::MAX_OUTPUT_BYTES,
                event_limit: crate::llm::stream_limit::MAX_EVENTS,
            },
        }
    }

    /// The collector after an event, in excess of the budget or not.
    pub open spec fn observed(self, delta: Delta) -> CollectorView {
        let counted = CollectorView { budget: self.budget.counted(delta), ..self };
        if self.budget.refusal(delta) is Some {
            counted
        } else {
            collected(counted, delta)
        }
    }

    /// What the event calls for.
    pub open spec fn step(self, delta: Delta) -> StepView {
        match self.budget.refusal(delta) {
            Some(text) => StepView::Failed(text),
            None => match delta {
                Delta::Usage { input, output } => StepView::Meter { input, output },
                Delta::Error(error) => StepView::Failed(error@),
                Delta::Done => StepView::Finished,
                _ => StepView::Continue,
            },
        }
    }
}

impl CollectorView {
    /// The usage that a finished answer reports.
    pub open spec fn usage(self) -> Option<TokenUsage> {
        if self.usage_reported {
            Some(TokenUsage { input: self.input, output: self.output })
        } else {
            None
        }
    }

    /// The usage that a call reports which did not finish.
    pub open spec fn snapshot(self) -> Option<TokenUsage> {
        if self.usage_reported {
            Some(TokenUsage { input: self.wrapped_input, output: self.wrapped_output })
        } else {
            None
        }
    }
}

impl Collector {
    pub fn new() -> (r: Collector)
        ensures
            r@ == CollectorView::fresh(),
            r@.text == Seq::<char>::empty(),
            r@.input == 0,
            r@.output == 0,
            r@.wrapped_input == 0,
            r@.wrapped_output == 0,
            !r@.usage_reported,
            !r@.answered,
            r@.metering_warning is None,
            r@.budget.bytes == 0,
            r@.budget.events == 0,
            r@.budget.byte_limit == crate::llm::stream_limit::MAX_OUTPUT_BYTES,
            r@.budget.event_limit == crate::llm::stream_limit::MAX_EVENTS,
    {
        Collector {
            text: String::new(),
            input: 0,
            output: 0,
            wrapped_input: 0,
            wrapped_output: 0,
            usage_reported: false,
            answered: false,
            metering_warning: None,
            budget: StreamBudget::default(),
        }
    }

    /// Takes one event. Only text is kept; usage adds up; an error or an excess
    /// fails the answer, and only `Done` finishes it.
    pub fn observe(&mut self, delta: Delta) -> (r: CollectStep)
        ensures
            final(self)@ == old(self)@.observed(delta),
            r@ == old(self)@.step(delta),
            ({
                let counted = CollectorView {
                    budget: old(self)@.budget.counted(delta),
                    ..old(self)@
                };
                match old(self)@.budget.refusal(delta) {
                    Some(text) => {
                        &&& r matches CollectStep::Failed(e)
                        &&& e@ == text
                        &&& final(self)@ == counted
                    },
                    None => {
                        &&& final(self)@ == collected(counted, delta)
                        &&& match delta {
                            Delta::Usage { input, output } => r == (CollectStep::Meter {
                                input,
                                output,
                            }),
                            Delta::Error(error) => r == CollectStep::Failed(error),
                            Delta::Done => r == CollectStep::Finished,
                            _ => r == CollectStep::Continue,
                        }
                    },
                }
            }),
    {
        match self.budget.observe(&delta) {
            Err(e) => return CollectStep::Failed(e),
            Ok(_) => {},
        }
        match delta {
            Delta::Error(_) => {},
            _ => {
                self.answered = true;
            },
        }
        match delta {
            Delta::Text(chunk) => {
                self.text.append(chunk.as_str());
                CollectStep::Continue
            },
            Delta::Usage { input, output } => {
                self.usage_reported = true;
                self.input = self.input.saturating_add(input);
                self.output = self.output.saturating_add(output);
                self.wrapped_input = self.wrapped_input.wrapping_add(input);
                self.wrapped_output = self.wrapped_output.wrapping_add(output);
                CollectStep::Meter { input, output }
            },
            Delta::Error(error) => CollectStep::Failed(error),
            Delta::Done => CollectStep::Finished,
            Delta::Reasoning(_) => CollectStep::Continue,
            Delta::ToolFragments(_) => CollectStep::Continue,
            Delta::ToolCall { .. } => CollectStep::Continue,
        }
    }

    /// Recording the usage that `observe` asked for was not durable.
    pub fn warn(&mut self, warning: String)
        ensures
            final(self)@ == (CollectorView { metering_warning: Some(warning@), ..old(self)@ }),
    {
        self.metering_warning = Some(warning);
    }

    /// Whether the call is to be recorded as one of unknown cost: it went to a
    /// provider that is metered, and none was reported.
    pub fn needs_unknown_record(&self, meter_provider: bool) -> (r: bool)
        ensures
            r == (meter_provider && !self@.usage_reported),
    {
        meter_provider && !self.usage_reported
    }

    /// Whether the rest of the answer need not be read: one that only asks
    /// whether the provider is alive knows it by the first that it sends.
    pub fn is_enough(&self, probing: bool) -> (r: bool)
        ensures
            r == (probing && self@.answered),
    {
        probing && self.answered
    }
}

/// How a started request ended.
#[derive(Debug)]
pub enum StreamEnd {
    Completed,
    Failed(String),
    TimedOut,
    Cancelled,
}

/// What a started request came to, and what the provider's circuit is told.
#[derive(Debug)]
pub struct Conclusion {
    pub result: Result<ManagedOutput, ManagedError>,
    pub outcome: Option<CallOutcome>,
    /// Whether the provider sent anything valid before the end.
    pub answered: bool,
}

/// What the circuit is told of a result.
pub open spec fn told(policy: CircuitPolicy, end: StreamEnd) -> Option<CallOutcome> {
    match end {
        StreamEnd::Cancelled => Some(CallOutcome::Neutral),
        StreamEnd::Completed => if policy == CircuitPolicy::Record {
            Some(CallOutcome::Success)
        } else {
            None
        },
        _ => if policy == CircuitPolicy::Record {
            Some(CallOutcome::Failure)
        } else {
            None
        },
    }
}

/// What a started request came to.
pub open spec fn concluded(
    end: StreamEnd,
    collector: CollectorView,
    unknown_warning: Option<Seq<char>>,
    provider: Seq<char>,
    timeout_seconds: u64,
) -> Result<OutputView, ErrorView> {
    let broken = |kind: ManagedErrorKind, message: Seq<char>|
        Err::<OutputView, ErrorView>(
            error_of(kind, message, true, collector.snapshot(), unknown_warning),
        );
    match end {
        StreamEnd::Completed => Ok(
            OutputView {
                text: collector.text,
                usage: collector.usage(),
                metering_warning: if unknown_warning is Some {
                    unknown_warning
                } else {
                    collector.metering_warning
                },
            },
        ),
        StreamEnd::Failed(error) => broken(ManagedErrorKind::Provider, error@),
        StreamEnd::TimedOut => broken(
            ManagedErrorKind::Timeout,
            "provider "@ + provider + " request timed out after "@ + decimal(timeout_seconds as nat)
                + "s"@,
        ),
        StreamEnd::Cancelled => broken(ManagedErrorKind::Cancelled, CANCELLED_ERROR@),
    }
}

/// Concludes a request that had started. `unknown_warning` is what recording
/// the call as one of unknown cost warned of, where that was needed.
pub fn conclude(
    policy: CircuitPolicy,
    end: StreamEnd,
    collector: Collector,
    unknown_warning: Option<String>,
    provider: &str,
    timeout_seconds: u64,
) -> (r: Conclusion)
    ensures
        r.outcome == told(policy, end),
        result_view(r.result) == concluded(
            end,
            collector@,
            opt_view(unknown_warning),
            provider@,
            timeout_seconds,
        ),
        r.answered == collector@.answered,
        match end {
            StreamEnd::Completed => {
                &&& r.result matches Ok(output)
                &&& output.text@ == collector@.text
                &&& output.usage == collector@.usage()
                &&& opt_view(output.metering_warning) == (if unknown_warning is Some {
                    opt_view(unknown_warning)
                } else {
                    collector@.metering_warning
                })
            },
            StreamEnd::Failed(error) => r.result matches Err(e) && e@ == error_of(
                ManagedErrorKind::Provider,
                error@,
                true,
                collector@.snapshot(),
                opt_view(unknown_warning),
            ),
            StreamEnd::TimedOut => r.result matches Err(e) && e@ == error_of(
                ManagedErrorKind::Timeout,
                "provider "@ + provider@ + " request timed out after "@ + decimal(
                    timeout_seconds as nat,
                ) + "s"@,
                true,
                collector@.snapshot(),
                opt_view(unknown_warning),
            ),
            StreamEnd::Cancelled => r.result matches Err(e) && e@ == error_of(
                ManagedErrorKind::Cancelled,
                CANCELLED_ERROR@,
                true,
                collector@.snapshot(),
                opt_view(unknown_warning),
            ),
        },
{
    let record = policy == CircuitPolicy::Record;
    let answered = collector.answered;
    let failure = if record {
        Some(CallOutcome::Failure)
    } else {
        None
    };
    let snapshot = if collector.usage_reported {
        Some(TokenUsage { input: collector.wrapped_input, output: collector.wrapped_output })
    } else {
        None
    };
    match end {
        StreamEnd::Completed => {
            let usage = if collector.usage_reported {
                Some(TokenUsage { input: collector.input, output: collector.output })
            } else {
                None
            };
            let metering_warning = if unknown_warning.is_some() {
                unknown_warning
            } else {
                collector.metering_warning
            };
            let outcome = if record {
                Some(CallOutcome::Success)
            } else {
                None
            };
            Conclusion {
                result: Ok(ManagedOutput { text: collector.text, usage, metering_warning }),
                outcome,
                answered,
            }
        },
        StreamEnd::Failed(error) => Conclusion {
            result: Err(
                managed_error(ManagedErrorKind::Provider, error, true, snapshot, unknown_warning),
            ),
            outcome: failure,
            answered,
        },
        StreamEnd::TimedOut => {
            let seconds = decimal_of(timeout_seconds);
            let text = cat5(
                "provider ",
                provider,
                " request timed out after ",
                seconds.as_str(),
                "s",
            );
            Conclusion {
                result: Err(
                    managed_error(ManagedErrorKind::Timeout, text, true, snapshot, unknown_warning),
                ),
                outcome: failure,
                answered,
            }
        },
        StreamEnd::Cancelled => Conclusion {
            result: Err(
                managed_error(
                    ManagedErrorKind::Cancelled,
                    CANCELLED_ERROR.to_owned(),
                    true,
                    snapshot,
                    unknown_warning,
                ),
            ),
            outcome: Some(CallOutcome::Neutral),
            answered,
        },
    }
}

/// The first event decides whether the provider answered: anything but an error
/// does, and nothing that comes later takes it back.
pub proof fn law_first_event_decides(c: CollectorView, first: Delta, later: Delta)
    requires
        !c.answered,
    ensures
        collected(c, first).answered == !(first is Error),
        !(first is Error) ==> collected(collected(c, first), later).answered,
{
}

/// A probe with a credential that is not stored neither heals nor harms the
/// provider's circuit, and a cancelled request never does.
pub proof fn law_neutral_results_are_not_told(policy: CircuitPolicy, end: StreamEnd)
    ensures
        policy == CircuitPolicy::Neutral || end is Cancelled ==> told(policy, end) != Some(
            CallOutcome::Success,
        ) && told(policy, end) != Some(CallOutcome::Failure),
{
}

/// A saved provider is told of every end but a cancellation.
pub proof fn law_recorded_results_are_told(end: StreamEnd)
    requires
        !(end is Cancelled),
    ensures
        told(CircuitPolicy::Record, end) == Some(
            if end is Completed {
                CallOutcome::Success
            } else {
                CallOutcome::Failure
            },
        ),
{
}

/// The tokens that the events report as read by the model.
pub open spec fn inputs(events: Seq<Delta>) -> int
    decreases events.len(),
{
    if events.len() == 0 {
        0
    } else {
        inputs(events.drop_last()) + match events.last() {
            Delta::Usage { input, .. } => input as int,
            _ => 0,
        }
    }
}

/// The tokens that the events report as written by the model.
pub open spec fn outputs(events: Seq<Delta>) -> int
    decreases events.len(),
{
    if events.len() == 0 {
        0
    } else {
        outputs(events.drop_last()) + match events.last() {
            Delta::Usage { output, .. } => output as int,
            _ => 0,
        }
    }
}

/// The pieces of text among the events, joined.
pub open spec fn said(events: Seq<Delta>) -> Seq<char>
    decreases events.len(),
{
    if events.len() == 0 {
        Seq::empty()
    } else {
        said(events.drop_last()) + match events.last() {
            Delta::Text(text) => text@,
            _ => Seq::empty(),
        }
    }
}

/// One of the events reports usage.
pub open spec fn has_usage(events: Seq<Delta>) -> bool {
    exists|i: int| 0 <= i < events.len() && (#[trigger] events[i]) is Usage
}

/// One of the events is something else than an error.
pub open spec fn has_answer(events: Seq<Delta>) -> bool {
    exists|i: int| 0 <= i < events.len() && !((#[trigger] events[i]) is Error)
}

/// A new collector after these events.
pub open spec fn read(events: Seq<Delta>) -> CollectorView
    decreases events.len(),
{
    if events.len() == 0 {
        CollectorView::fresh()
    } else {
        read(events.drop_last()).observed(events.last())
    }
}

/// None of the events is in excess of the budget.
pub open spec fn within(events: Seq<Delta>) -> bool {
    forall|i: int|
        0 <= i < events.len() ==> read(events.take(i)).budget.refusal(#[trigger] events[i]) is None
}

/// How many values a counter of the usage has.
pub open spec fn counter_size() -> int {
    0x1_0000_0000_0000_0000
}

proof fn lemma_wraps(a: u64, b: u64, sum: int)
    requires
        0 <= sum,
        a == sum % counter_size(),
    ensures
        plus_wrapping(a, b) == (sum + b) % counter_size(),
        0 <= sum + b,
{
}

proof fn lemma_within(events: Seq<Delta>)
    requires
        within(events),
        events.len() > 0,
    ensures
        within(events.drop_last()),
        read(events) == collected(
            CollectorView {
                budget: read(events.drop_last()).budget.counted(events.last()),
                ..read(events.drop_last())
            },
            events.last(),
        ),
{
    let init = events.drop_last();
    assert forall|i: int| 0 <= i < init.len() implies read(init.take(i)).budget.refusal(
        #[trigger] init[i],
    ) is None by {
        assert(init.take(i) =~= events.take(i));
        assert(init[i] == events[i]);
    }
    assert(events.take(events.len() - 1) =~= init);
    assert(events[events.len() - 1] == events.last());
}

proof fn lemma_read_text(events: Seq<Delta>)
    requires
        within(events),
    ensures
        read(events).text == said(events),
        read(events).metering_warning is None,
    decreases events.len(),
{
    if events.len() > 0 {
        lemma_within(events);
        lemma_read_text(events.drop_last());
        assert(read(events).text =~= said(events));
    }
}

proof fn lemma_has_usage(events: Seq<Delta>)
    requires
        events.len() > 0,
    ensures
        has_usage(events) == (has_usage(events.drop_last()) || events.last() is Usage),
{
    let init = events.drop_last();
    assert(events[events.len() - 1] == events.last());
    if has_usage(init) {
        let i = choose|i: int| 0 <= i < init.len() && (#[trigger] init[i]) is Usage;
        assert(events[i] is Usage);
    }
    if has_usage(events) && !(events.last() is Usage) {
        let i = choose|i: int| 0 <= i < events.len() && (#[trigger] events[i]) is Usage;
        assert(init[i] is Usage);
    }
}

proof fn lemma_has_answer(events: Seq<Delta>)
    requires
        events.len() > 0,
    ensures
        has_answer(events) == (has_answer(events.drop_last()) || !(events.last() is Error)),
{
    let init = events.drop_last();
    assert(events[events.len() - 1] == events.last());
    if has_answer(init) {
        let i = choose|i: int| 0 <= i < init.len() && !((#[trigger] init[i]) is Error);
        assert(!(events[i] is Error));
    }
    if has_answer(events) && events.last() is Error {
        let i = choose|i: int| 0 <= i < events.len() && !((#[trigger] events[i]) is Error);
        assert(!(init[i] is Error));
    }
}

proof fn lemma_read_flags(events: Seq<Delta>)
    requires
        within(events),
    ensures
        read(events).usage_reported == has_usage(events),
        read(events).answered == has_answer(events),
    decreases events.len(),
{
    if events.len() > 0 {
        lemma_within(events);
        lemma_read_flags(events.drop_last());
        lemma_has_usage(events);
        lemma_has_answer(events);
    }
}

proof fn lemma_read_sums(events: Seq<Delta>)
    requires
        within(events),
    ensures
        0 <= inputs(events),
        0 <= outputs(events),
        read(events).input == (if inputs(events) > u64::MAX {
            u64::MAX as int
        } else {
            inputs(events)
        }),
        read(events).output == (if outputs(events) > u64::MAX {
            u64::MAX as int
        } else {
            outputs(events)
        }),
        read(events).wrapped_input == inputs(events) % counter_size(),
        read(events).wrapped_output == outputs(events) % counter_size(),
    decreases events.len(),
{
    if events.len() > 0 {
        let init = events.drop_last();
        lemma_within(events);
        lemma_read_sums(init);
        if let Delta::Usage { input, output } = events.last() {
            lemma_wraps(read(init).wrapped_input, input, inputs(init));
            lemma_wraps(read(init).wrapped_output, output, outputs(init));
        }
    }
}

proof fn lemma_read(events: Seq<Delta>)
    requires
        within(events),
    ensures
        ({
            let c = read(events);
            &&& c.text == said(events)
            &&& c.input == if inputs(events) > u64::MAX {
                u64::MAX as int
            } else {
                inputs(events)
            }
            &&& c.output == if outputs(events) > u64::MAX {
                u64::MAX as int
            } else {
                outputs(events)
            }
            &&& c.wrapped_input == inputs(events) % counter_size()
            &&& c.wrapped_output == outputs(events) % counter_size()
            &&& c.usage_reported == has_usage(events)
            &&& c.answered == has_answer(events)
            &&& c.metering_warning is None
            &&& inputs(events) >= 0
            &&& outputs(events) >= 0
        }),
{
    lemma_read_text(events);
    lemma_read_flags(events);
    lemma_read_sums(events);
}

/// A completed answer is the text that was streamed, and its usage is the sum of
/// what the stream reported: what was read and what was written, each counted up
/// to the largest number. There is none only where nothing was reported.
pub proof fn law_completed_answer_is_what_was_streamed(
    events: Seq<Delta>,
    unknown_warning: Option<Seq<char>>,
    provider: Seq<char>,
    timeout_seconds: u64,
)
    requires
        within(events),
    ensures
        ({
            let r = concluded(
                StreamEnd::Completed,
                read(events),
                unknown_warning,
                provider,
                timeout_seconds,
            );
            &&& r is Ok
            &&& r->Ok_0.text == said(events)
            &&& r->Ok_0.usage is Some <==> has_usage(events)
            &&& r->Ok_0.usage matches Some(u) ==> {
                &&& u.input <= inputs(events)
                &&& u.input == inputs(events) || u.input == u64::MAX
                &&& u.output <= outputs(events)
                &&& u.output == outputs(events) || u.output == u64::MAX
            }
            &&& r->Ok_0.metering_warning == unknown_warning
        }),
{
    lemma_read(events);
}

/// A call that did not finish has started, and reports what its stream did: each
/// sum, but for a multiple of what a counter holds. Its message is the reason,
/// and its kind tells a failure, a timeout and a cancellation apart.
pub proof fn law_unfinished_call_reports_its_usage(
    end: StreamEnd,
    events: Seq<Delta>,
    unknown_warning: Option<Seq<char>>,
    provider: Seq<char>,
    timeout_seconds: u64,
)
    requires
        within(events),
        !(end is Completed),
    ensures
        ({
            let r = concluded(end, read(events), unknown_warning, provider, timeout_seconds);
            &&& r is Err
            &&& r->Err_0.request_started
            &&& r->Err_0.usage_reported == has_usage(events)
            &&& r->Err_0.usage is Some <==> has_usage(events)
            &&& r->Err_0.usage matches Some(u) ==> {
                &&& u.input == inputs(events) % counter_size()
                &&& u.output == outputs(events) % counter_size()
            }
            &&& r->Err_0.metering_warning == unknown_warning
            &&& match end {
                StreamEnd::Failed(error) => r->Err_0.kind == ManagedErrorKind::Provider
                    && r->Err_0.message == error@,
                StreamEnd::TimedOut => r->Err_0.kind == ManagedErrorKind::Timeout
                    && r->Err_0.message == "provider "@ + provider + " request timed out after "@
                    + decimal(timeout_seconds as nat) + "s"@,
                _ => r->Err_0.kind == ManagedErrorKind::Cancelled && r->Err_0.message
                    == "request cancelled"@,
            }
        }),
{
    lemma_read(events);
}

/// A warning on the metering comes out with the answer, where no later one
/// replaces it, and changes nothing else.
pub proof fn law_metering_warning_is_handed_on(
    collector: CollectorView,
    unknown_warning: Option<Seq<char>>,
    provider: Seq<char>,
    timeout_seconds: u64,
)
    ensures
        ({
            let r = concluded(
                StreamEnd::Completed,
                collector,
                unknown_warning,
                provider,
                timeout_seconds,
            );
            &&& r is Ok
            &&& r->Ok_0.metering_warning == match unknown_warning {
                Some(w) => Some(w),
                None => collector.metering_warning,
            }
        }),
{
}

/// What an event calls for: usage is recorded as it was reported, only the
/// protocol's end finishes, and nothing but an error or an excess fails. What is
/// in excess is not kept.
pub proof fn law_events_are_told_apart(c: CollectorView, delta: Delta)
    ensures
        c.step(delta) is Finished <==> delta is Done && c.budget.refusal(delta) is None,
        c.step(delta) matches StepView::Meter { input, output } ==> delta == (Delta::Usage {
            input,
            output,
        }),
        delta is Usage && c.budget.refusal(delta) is None ==> c.step(delta) is Meter,
        c.step(delta) is Failed <==> delta is Error || c.budget.refusal(delta) is Some,
        c.budget.refusal(delta) is None ==> (delta matches Delta::Error(error) ==> c.step(delta)
            == StepView::Failed(error@)),
        c.budget.refusal(delta) is Some ==> {
            &&& c.observed(delta).text == c.text
            &&& c.observed(delta).input == c.input
            &&& c.observed(delta).output == c.output
            &&& c.observed(delta).usage_reported == c.usage_reported
            &&& c.observed(delta).answered == c.answered
        },
{
}

/// A request starts only where nobody cancelled it, its own marker was written,
/// and a second or a quarter of its time is left; where one of these fails,
/// nothing was sent and nothing is owed.
pub proof fn law_starts_only_with_time_left(
    provider: Seq<char>,
    timeout: u64,
    remaining: u64,
    cancelled: bool,
    barrier: Result<(), String>,
)
    ensures
        start_refusal(provider, timeout, remaining, cancelled, barrier) is None <==> !cancelled
            && barrier is Ok && (remaining >= 1_000_000_000 || timeout < 4 * (remaining + 1)),
        request_refusal(cancelled, barrier) is None <==> !cancelled && barrier is Ok,
        start_refusal(provider, timeout, remaining, cancelled, barrier) matches Some(e)
            ==> !e.request_started && !e.usage_reported && e.usage is None && e.metering_warning
            is None,
        request_refusal(cancelled, barrier) matches Some(e) ==> !e.request_started
            && !e.usage_reported && e.usage is None && e.metering_warning is None,
        request_refusal(true, barrier) matches Some(e) && e.kind == ManagedErrorKind::Cancelled
            && e.message == "request cancelled"@,
        barrier matches Err(message) ==> (request_refusal(false, barrier) matches Some(e) && e.kind
            == ManagedErrorKind::Local && e.message == message@),
{
}

} // verus!
