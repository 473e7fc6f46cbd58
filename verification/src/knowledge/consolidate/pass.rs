//! One session in a consolidation pass, as a machine: `step` says what is to be
//! done next, and the method for that step takes what came of it.

use crate::knowledge::consolidate::attempt::{
    Attempt, AttemptStatus, AttemptView,
};
use crate::knowledge::consolidate::state::{or_zero, State, StateView};
use crate::knowledge::distill::NewNote;
use crate::llm::managed::{ManagedError, ManagedOutput, TokenUsage};
use crate::llm::types::ModelRef;
use crate::session::{recent, recent_texts, spoken, Message, Session};
use crate::text::{cat2, each_once, ends, once_each, opt_view, views};
use vstd::prelude::*;

verus! {

/// A pass looks back this far, in milliseconds.
pub const WINDOW_MS: u64 = 86_400_000;

/// How many of the last messages a transcript holds.
pub const TRANSCRIPT_MESSAGES: usize = 20;

/// Why an attempt is being persisted and metered.
#[derive(Debug, Clone, Copy, PartialEq, Eq, Structural)]
pub enum Origin {
    /// Its checkpoint was already committed; it is only to be cleared away.
    Completed,
    /// It was found on disk, not yet checkpointed.
    Resumed,
    /// The provider call of this run failed after it had started.
    FailedCall,
    /// The provider call of this run gave notes.
    Generated,
}

/// Why an attempt is being removed.
#[derive(Debug, Clone, Copy, PartialEq, Eq, Structural)]
pub enum Removal {
    Completed,
    Legacy,
    Unstarted,
    Finished,
}

#[derive(Debug, Clone, Copy, PartialEq, Eq, Structural)]
pub enum Step {
    FirstTombstone,
    LoadState,
    LoadAttempt,
    PersistStatus(Origin),
    RepairStatus(Origin),
    Meter(Origin),
    PersistAck(Origin),
    RepairAck(Origin),
    EnsureDurable(Removal),
    Remove(Removal),
    Snapshot,
    Goal,
    Gone,
    Route,
    Claim,
    RepairClaim,
    RepairClaimAgain,
    Generate,
    LateTombstone,
    AddNote,
    SaveCursor,
    ReadCursor,
    Checkpoint,
    Done,
}

/// Where a run goes once the attempt is metered.
pub open spec fn settled(origin: Origin) -> Step {
    match origin {
        Origin::Completed => Step::EnsureDurable(Removal::Completed),
        Origin::Resumed => Step::LateTombstone,
        Origin::FailedCall => Step::Done,
        Origin::Generated => Step::LateTombstone,
    }
}

/// Which step may come after which.
pub open spec fn follows(a: Step, b: Step) -> bool {
    ||| b == Step::Done
    ||| match a {
        Step::FirstTombstone => b == Step::LoadState,
        Step::LoadState => b == Step::LoadAttempt,
        Step::LoadAttempt => {
            ||| b == Step::Snapshot
            ||| b matches Step::PersistStatus(o) && (o == Origin::Completed || o == Origin::Resumed)
            ||| b matches Step::Meter(o) && (o == Origin::Completed || o == Origin::Resumed)
            ||| b == settled(Origin::Completed)
            ||| b == settled(Origin::Resumed)
        },
        Step::PersistStatus(o) => b == Step::RepairStatus(o) || b == Step::Meter(o) || b == settled(o),
        Step::RepairStatus(o) => b == Step::Meter(o) || b == settled(o),
        Step::Meter(o) => b == Step::PersistAck(o),
        Step::PersistAck(o) => b == Step::RepairAck(o) || b == settled(o),
        Step::RepairAck(o) => b == settled(o),
        Step::EnsureDurable(why) => b == Step::Remove(why),
        Step::Remove(_) => false,
        Step::Snapshot => b == Step::Goal,
        Step::Goal => b == Step::Gone,
        Step::Gone => b == Step::Route,
        Step::Route => b == Step::Claim,
        Step::Claim => b == Step::Generate || b == Step::RepairClaim,
        Step::RepairClaim => b == Step::Generate || b == Step::RepairClaimAgain,
        Step::RepairClaimAgain => b == Step::Generate,
        Step::Generate => {
            ||| b == Step::PersistStatus(Origin::FailedCall)
            ||| b == Step::PersistStatus(Origin::Generated)
            ||| b == Step::Remove(Removal::Unstarted)
        },
        Step::LateTombstone => after_notes(b),
        Step::AddNote => b == Step::SaveCursor,
        Step::SaveCursor => after_notes(b),
        Step::ReadCursor => b == Step::Checkpoint,
        Step::Checkpoint => b == Step::Remove(Removal::Finished) || b == Step::EnsureDurable(
            Removal::Finished,
        ),
        Step::Done => false,
    }
}

/// The steps that may come next while notes are being written.
pub open spec fn after_notes(b: Step) -> bool {
    b == Step::AddNote || b == Step::ReadCursor || b == Step::Remove(Removal::Legacy)
}

/// The wall time that the focused goal leaves for a call.
#[derive(Debug)]
pub enum RuntimeBudget {
    Unbounded,
    WallRemaining(u64),
    Stop,
}

#[derive(Debug)]
pub struct GoalFocus {
    pub id: String,
    pub budget: RuntimeBudget,
}

/// A session's messages as they stood at one moment.
#[derive(Debug)]
pub struct Snapshot {
    pub meta: Session,
    pub messages: Vec<Message>,
    pub cursor: String,
}

/// A session that could not be read: one that is being deleted denies access.
#[derive(Debug)]
pub enum ReadFailure {
    Denied,
    Other(String),
}

/// What a metering transaction reported.
#[derive(Debug)]
pub struct Metering {
    pub durability_warnings: Vec<String>,
    pub stop_message: Option<String>,
}

/// What came of the provider call.
#[derive(Debug)]
pub struct Generated {
    pub result: Result<Vec<NewNote>, String>,
    pub request_started: bool,
    pub usage: Option<TokenUsage>,
    pub unmetered_call: bool,
    pub metering_warning: Option<String>,
}

impl Generated {
    /// There was nothing to distill: nobody was asked.
    pub fn nothing() -> (r: Generated)
        ensures
            r.result matches Ok(notes) && notes@.len() == 0,
            !r.request_started,
            r.usage is None,
            !r.unmetered_call,
            r.metering_warning is None,
    {
        Generated {
            result: Ok(Vec::new()),
            request_started: false,
            usage: None,
            unmetered_call: false,
            metering_warning: None,
        }
    }

    /// The call failed. It went unmetered where it had begun and no usage came
    /// back.
    pub fn failed(error: ManagedError) -> (r: Generated)
        ensures
            r.result == Err::<Vec<NewNote>, String>(error.message),
            r.request_started == error.request_started,
            r.usage == error.usage,
            r.unmetered_call == (error.request_started && !error.usage_reported),
            r.metering_warning == error.metering_warning,
    {
        Generated {
            result: Err(error.message),
            request_started: error.request_started,
            usage: error.usage,
            unmetered_call: error.request_started && !error.usage_reported,
            metering_warning: error.metering_warning,
        }
    }

    /// The call was answered; `notes` is what its text holds.
    pub fn answered(output: ManagedOutput, notes: Result<Vec<NewNote>, String>) -> (r: Generated)
        ensures
            r.result == notes,
            r.request_started,
            r.usage == output.usage,
            r.unmetered_call == (output.usage is None),
            r.metering_warning == output.metering_warning,
    {
        Generated {
            result: notes,
            request_started: true,
            usage: output.usage,
            unmetered_call: output.usage.is_none(),
            metering_warning: output.metering_warning,
        }
    }
}

/// One session's way through a pass.
pub struct SessionRun {
    pub session_id: String,
    pub since: u64,
    pub step: Step,
    pub state: State,
    pub attempt: Option<Attempt>,
    pub transcript: Vec<String>,
    pub timeout_ms: u64,
    /// The first failure of a write that is being repeated.
    pub warning: String,
    pub claim_warning: String,
    /// Why the provider call failed.
    pub failure: String,
    pub written: usize,
    pub diagnostics: Vec<String>,
}

#[verifier::ext_equal]
pub struct RunView {
    pub session_id: Seq<char>,
    pub since: u64,
    pub step: Step,
    pub state: StateView,
    pub attempt: Option<AttemptView>,
    pub transcript: Seq<Seq<char>>,
    pub timeout_ms: u64,
    pub warning: Seq<char>,
    pub claim_warning: Seq<char>,
    pub failure: Seq<char>,
    pub written: usize,
    pub diagnostics: Seq<Seq<char>>,
}

pub open spec fn attempt_view(attempt: Option<Attempt>) -> Option<AttemptView> {
    match attempt {
        Some(attempt) => Some(attempt@),
        None => None,
    }
}

impl View for SessionRun {
    type V = RunView;

    open spec fn view(&self) -> RunView {
        RunView {
            session_id: self.session_id@,
            since: self.since,
            step: self.step,
            state: self.state@,
            attempt: attempt_view(self.attempt),
            transcript: views(self.transcript@),
            timeout_ms: self.timeout_ms,
            warning: self.warning@,
            claim_warning: self.claim_warning@,
            failure: self.failure@,
            written: self.written,
            diagnostics: views(self.diagnostics@),
        }
    }
}

/// A diagnostic on one session.
pub open spec fn about(id: Seq<char>, what: Seq<char>, error: Seq<char>) -> Seq<char> {
    "session "@ + id + what + error
}

pub open spec fn status_failure(origin: Origin) -> Seq<char> {
    match origin {
        Origin::Completed => " completed status persistence failed: "@,
        Origin::Resumed => " blocked status persistence failed: "@,
        Origin::FailedCall => " failed Provider result metering is BLOCKED: "@,
        Origin::Generated => " generated notes are BLOCKED: "@,
    }
}

pub open spec fn metering_failure(origin: Origin) -> Seq<char> {
    match origin {
        Origin::Completed => " completed metering recovery failed: "@,
        Origin::Resumed => " metering recovery failed: "@,
        Origin::FailedCall => " failed call metering is BLOCKED: "@,
        Origin::Generated => " generated note metering is BLOCKED: "@,
    }
}

pub open spec fn removal_failure(why: Removal) -> Seq<char> {
    match why {
        Removal::Completed => " completed attempt cleanup failed: "@,
        Removal::Legacy => " legacy attempt cleanup failed: "@,
        Removal::Unstarted => " unused consolidation claim cleanup failed: "@,
        Removal::Finished => " completed attempt cleanup failed: "@,
    }
}

/// A write that failed twice: it was visible the first time.
pub open spec fn twice(warning: Seq<char>, repair: Seq<char>) -> Seq<char> {
    "attempt was visible but durability repair failed: "@ + warning + "; "@ + repair
}

/// A write that never became visible.
pub open spec fn uncommitted(message: Seq<char>) -> Seq<char> {
    "attempt was not committed: "@ + message
}

/// What the metering of an attempt adds to the diagnostics.
pub open spec fn metering_notes(
    id: Seq<char>,
    warnings: Seq<Seq<char>>,
    degraded: Option<Seq<char>>,
    stop: Option<Seq<char>>,
) -> Seq<Seq<char>> {
    let repaired = warnings.map_values(
        |w: Seq<char>| about(id, " metering durability repaired: "@, w),
    );
    let noted = match degraded {
        Some(w) => repaired.push(about(id, " Provider metering degraded: "@, w)),
        None => repaired,
    };
    match stop {
        Some(m) => noted.push(about(id, " goal stopped after consolidation charge: "@, m)),
        None => noted,
    }
}

impl RunView {
    pub open spec fn at(self, step: Step) -> RunView {
        RunView { step, ..self }
    }

    pub open spec fn with(self, attempt: AttemptView) -> RunView {
        RunView { attempt: Some(attempt), ..self }
    }

    pub open spec fn said(self, text: Seq<char>) -> RunView {
        RunView { diagnostics: self.diagnostics.push(text), ..self }
    }

    /// The run ends with one diagnostic.
    pub open spec fn failed(self, text: Seq<char>) -> RunView {
        self.said(text).at(Step::Done)
    }

    /// The attempt was found checkpointed: by its cursor where it has one, by
    /// its revision or its time where not.
    pub open spec fn already_checkpointed(self, a: AttemptView) -> bool {
        match a.message_cursor {
            Some(cursor) => self.state.cursor(self.session_id) == Some(cursor),
            None => match a.message_revision {
                Some(revision) => revision <= or_zero(self.state.message_revisions, self.session_id),
                None => a.updated_at <= or_zero(self.state.distilled, self.session_id),
            },
        }
    }

    /// Metering is done: on to what the attempt is there for. A resumed attempt
    /// without a result is blocked for good.
    pub open spec fn metered(self, origin: Origin) -> RunView
        recommends
            self.attempt is Some,
    {
        match origin {
            Origin::Completed => self.at(Step::EnsureDurable(Removal::Completed)),
            Origin::Resumed => if self.attempt->0.blocked() {
                self.failed(
                    "session "@ + self.session_id
                        + " consolidation BLOCKED: a Provider request may have started before its result was recorded"@,
                )
            } else {
                self.at(Step::LateTombstone)
            },
            Origin::FailedCall => self.failed(
                about(self.attempt->0.session_id, " distillation failed: "@, self.failure),
            ),
            Origin::Generated => self.at(Step::LateTombstone),
        }
    }

    /// The status is on disk: metering is next unless it was acknowledged.
    pub open spec fn status_kept(self, origin: Origin) -> RunView
        recommends
            self.attempt is Some,
    {
        if self.attempt->0.metering_ack {
            self.metered(origin)
        } else {
            self.at(Step::Meter(origin))
        }
    }

    /// A status or an acknowledgement could not be kept.
    pub open spec fn not_kept(self, origin: Origin, what: Seq<char>, error: Seq<char>) -> RunView
        recommends
            self.attempt is Some,
    {
        let id = match origin {
            Origin::Completed => self.session_id,
            Origin::Resumed => self.session_id,
            Origin::FailedCall => self.attempt->0.session_id,
            Origin::Generated => self.attempt->0.session_id,
        };
        let told = self.said(about(id, what, error));
        if origin == Origin::FailedCall {
            told.failed(about(id, " distillation failed: "@, self.failure))
        } else {
            told.at(Step::Done)
        }
    }

    /// The next thing to do with the notes: write one, or commit their
    /// checkpoint where all are written and the attempt names one.
    pub open spec fn notes_next(self) -> RunView
        recommends
            self.attempt is Some,
            self.attempt->0.notes is Some,
    {
        let a = self.attempt->0;
        if a.next_note < a.notes->0.len() {
            self.at(Step::AddNote)
        } else if a.checkpoint_target() is Some {
            self.at(Step::ReadCursor)
        } else {
            self.at(Step::Remove(Removal::Legacy))
        }
    }

    /// What holds at each step.
    pub open spec fn inv(self) -> bool {
        match self.step {
            Step::FirstTombstone | Step::LoadState | Step::LoadAttempt | Step::Snapshot => self.written
                == 0,
            Step::Done => true,
            Step::PersistStatus(o) | Step::RepairStatus(o) | Step::Meter(o) | Step::PersistAck(o)
            | Step::RepairAck(o) => {
                &&& self.attempt is Some
                &&& self.attempt->0.cursor_in_range()
                &&& o == Origin::Generated ==> self.attempt->0.notes is Some
                &&& (self.step == Step::PersistAck(o) || self.step == Step::RepairAck(o))
                    ==> self.attempt->0.metering_ack
                &&& self.written == 0
            },
            Step::Goal | Step::Gone | Step::Route | Step::Claim | Step::RepairClaim
            | Step::RepairClaimAgain | Step::Generate => {
                &&& self.attempt is Some
                &&& self.attempt->0.notes is None
                &&& self.attempt->0.next_note == 0
                &&& !self.attempt->0.metering_ack
                &&& self.written == 0
            },
            Step::LateTombstone | Step::AddNote | Step::SaveCursor | Step::ReadCursor
            | Step::Checkpoint => {
                &&& self.attempt is Some
                &&& self.attempt->0.notes is Some
                &&& self.attempt->0.cursor_in_range()
                &&& self.attempt->0.metering_ack
                &&& self.written <= self.attempt->0.next_note
                &&& self.step == Step::AddNote ==> self.attempt->0.next_note
                    < self.attempt->0.notes->0.len()
                &&& (self.step == Step::ReadCursor || self.step == Step::Checkpoint) ==> {
                    &&& self.attempt->0.next_note == self.attempt->0.notes->0.len()
                    &&& self.attempt->0.checkpoint_target() is Some
                }
            },
            Step::EnsureDurable(why) => {
                &&& self.attempt is Some
                &&& self.attempt->0.metering_ack
                &&& why == Removal::Completed || why == Removal::Finished
            },
            Step::Remove(why) => {
                &&& self.attempt is Some
                &&& why != Removal::Unstarted ==> self.attempt->0.metering_ack
            },
        }
    }
}

pub(crate) fn status_failure_text(origin: Origin) -> (r: &'static str)
    ensures
        r@ == status_failure(origin),
{
    match origin {
        Origin::Completed => " completed status persistence failed: ",
        Origin::Resumed => " blocked status persistence failed: ",
        Origin::FailedCall => " failed Provider result metering is BLOCKED: ",
        Origin::Generated => " generated notes are BLOCKED: ",
    }
}

pub(crate) fn metering_failure_text(origin: Origin) -> (r: &'static str)
    ensures
        r@ == metering_failure(origin),
{
    match origin {
        Origin::Completed => " completed metering recovery failed: ",
        Origin::Resumed => " metering recovery failed: ",
        Origin::FailedCall => " failed call metering is BLOCKED: ",
        Origin::Generated => " generated note metering is BLOCKED: ",
    }
}

pub(crate) fn removal_failure_text(why: Removal) -> (r: &'static str)
    ensures
        r@ == removal_failure(why),
{
    match why {
        Removal::Completed => " completed attempt cleanup failed: ",
        Removal::Legacy => " legacy attempt cleanup failed: ",
        Removal::Unstarted => " unused consolidation claim cleanup failed: ",
        Removal::Finished => " completed attempt cleanup failed: ",
    }
}

/// A new attempt for a snapshot, with what the provider is to read.
#[derive(Debug)]
pub struct PreparedAttempt {
    pub attempt: Attempt,
    pub transcript: Vec<String>,
}

/// A blocked attempt: what is on disk from the claim to the result.
pub open spec fn fresh_attempt(
    id: Seq<char>,
    updated_at: u64,
    revision: u64,
    directory: Seq<char>,
    cursor: Seq<char>,
    operation_id: Seq<char>,
    goal_id: Option<Seq<char>>,
) -> AttemptView {
    AttemptView {
        session_id: id,
        updated_at,
        message_revision: Some(revision),
        message_cursor: Some(cursor),
        workdir: directory,
        operation_id,
        goal_id,
        usage: None,
        unmetered_call: false,
        metering_warning: None,
        metering_ack: false,
        status: AttemptStatus::ProviderResultUnknown,
        reason: Some(crate::knowledge::consolidate::attempt::UNKNOWN_RESULT_REASON@),
        notes: None,
        next_note: 0,
    }
}

pub fn new_attempt(meta: &Session, cursor: String, operation_id: String, goal_id: Option<String>) -> (r:
    Attempt)
    ensures
        r@ == fresh_attempt(
            meta.id@,
            meta.updated_at,
            meta.message_revision,
            meta.directory@,
            cursor@,
            operation_id@,
            opt_view(goal_id),
        ),
{
    Attempt {
        session_id: meta.id.clone(),
        updated_at: meta.updated_at,
        message_revision: Some(meta.message_revision),
        message_cursor: Some(cursor),
        workdir: meta.directory.clone(),
        operation_id,
        goal_id,
        usage: None,
        unmetered_call: false,
        metering_warning: None,
        metering_ack: false,
        status: AttemptStatus::ProviderResultUnknown,
        reason: Some(Attempt::new_blocked_reason()),
        notes: None,
        next_note: 0,
    }
}

/// The attempt for a snapshot that says enough: at least two of its last
/// messages have text.
pub fn prepare_new_attempt(
    meta: &Session,
    messages: &Vec<Message>,
    cursor: String,
    operation_id: String,
) -> (r: Option<PreparedAttempt>)
    ensures
        ({
            let said = spoken(recent(messages@, TRANSCRIPT_MESSAGES as nat));
            if said.len() < 2 {
                r is None
            } else {
                &&& r matches Some(p)
                &&& views(p.transcript@) == said
                &&& p.attempt@ == fresh_attempt(
                    meta.id@,
                    meta.updated_at,
                    meta.message_revision,
                    meta.directory@,
                    cursor@,
                    operation_id@,
                    None,
                )
            }
        }),
{
    let transcript = recent_texts(messages.as_slice(), TRANSCRIPT_MESSAGES);
    assert(views(transcript@).len() == transcript@.len());
    if transcript.len() < 2 {
        return None;
    }
    Some(PreparedAttempt { attempt: new_attempt(meta, cursor, operation_id, None), transcript })
}

/// The earliest time that a pass started at `now` looks back to.
pub fn since(now: u64) -> (r: u64)
    ensures
        r == (if now >= WINDOW_MS {
            now - WINDOW_MS
        } else {
            0
        }),
{
    now.saturating_sub(WINDOW_MS)
}

/// The model that a session's notes are made with, and the manager that its calls
/// go through.
#[derive(Debug)]
pub struct SessionRoute<M> {
    pub mrm: M,
    pub model: ModelRef,
}

/// What a pass came to: a failure of one session does not stop the others.
#[derive(Debug)]
pub struct ConsolidationResult {
    pub written: usize,
    pub diagnostics: Vec<String>,
}

impl ConsolidationResult {
    /// The result of a pass that found another one running.
    pub fn empty() -> (r: ConsolidationResult)
        ensures
            r.written == 0,
            views(r.diagnostics@) == Seq::<Seq<char>>::empty(),
    {
        let r = ConsolidationResult { written: 0, diagnostics: Vec::new() };
        assert(views(r.diagnostics@) =~= Seq::<Seq<char>>::empty());
        r
    }

    /// Adds what one session's run did.
    pub fn absorb(&mut self, run: SessionRun)
        requires
            old(self).written + run@.written <= usize::MAX,
        ensures
            final(self).written == old(self).written + run@.written,
            views(final(self).diagnostics@) == views(old(self).diagnostics@) + run@.diagnostics,
    {
        self.written = self.written + run.written;
        let mut texts = run.diagnostics;
        let ghost before = self.diagnostics@;
        let ghost added = texts@;
        self.diagnostics.append(&mut texts);
        assert(views(self.diagnostics@) =~= views(before) + views(added));
    }
}

/// The sessions that a pass goes through, or the result of one that cannot
/// begin: the state must be readable, and the sessions listed.
pub fn opening(state: Result<(), String>, sessions: Result<Vec<Session>, String>) -> (r: Result<
    Vec<Session>,
    ConsolidationResult,
>)
    ensures
        match state {
            Err(e) => {
                &&& r matches Err(done)
                &&& done.written == 0
                &&& views(done.diagnostics@) == seq![e@]
            },
            Ok(_) => match sessions {
                Ok(list) => r == Ok::<Vec<Session>, ConsolidationResult>(list),
                Err(e) => {
                    &&& r matches Err(done)
                    &&& done.written == 0
                    &&& views(done.diagnostics@) == seq!["session catalog unavailable: "@ + e@]
                },
            },
        },
{
    let error = match state {
        Err(e) => e,
        Ok(_) => match sessions {
            Ok(list) => return Ok(list),
            Err(e) => cat2("session catalog unavailable: ", e.as_str()),
        },
    };
    let mut done = ConsolidationResult::empty();
    let ghost text = error@;
    done.diagnostics.push(error);
    assert(views(done.diagnostics@) =~= seq![text]);
    Err(done)
}

/// The operations that still have an attempt on disk, each one once. An attempt
/// comes with what the validator of identifiers said of its operation; the first
/// refusal is handed on.
pub fn pending_metering_operation_ids(found: &Vec<(Option<Attempt>, Result<(), String>)>) -> (r:
    Result<Vec<String>, String>)
    ensures
        match first_refusal(found@) {
            Some(error) => r matches Err(e) && e@ == error,
            None => r matches Ok(ids) && views(ids@) == each_once(operations(found@)),
        },
{
    let mut ids: Vec<String> = Vec::new();
    let mut i: usize = 0;
    assert(views(ids@) =~= operations(found@.take(0)));
    while i < found.len()
        invariant
            i <= found@.len(),
            first_refusal(found@.take(i as int)) is None,
            views(ids@) == operations(found@.take(i as int)),
        decreases found@.len() - i,
    {
        assert(found@.take(i + 1).drop_last() =~= found@.take(i as int));
        let (attempt, check) = &found[i];
        if let Some(a) = attempt {
            match check {
                Err(e) => {
                    proof {
                        lemma_refusal_stays(found@, i + 1);
                    }
                    return Err(e.clone());
                },
                Ok(_) => {
                    let ghost before = ids@;
                    ids.push(a.operation_id.clone());
                    assert(views(ids@) =~= views(before).push(a.operation_id@));
                },
            }
        }
        i = i + 1;
    }
    assert(found@.take(i as int) =~= found@);
    Ok(once_each(ids))
}

/// The operations of the attempts that are there.
pub open spec fn operations(found: Seq<(Option<Attempt>, Result<(), String>)>) -> Seq<Seq<char>>
    decreases found.len(),
{
    if found.len() == 0 {
        Seq::empty()
    } else {
        let head = operations(found.drop_last());
        match found.last().0 {
            Some(a) => head.push(a.operation_id@),
            None => head,
        }
    }
}

/// The first operation that is no identifier.
pub open spec fn first_refusal(found: Seq<(Option<Attempt>, Result<(), String>)>) -> Option<Seq<char>>
    decreases found.len(),
{
    if found.len() == 0 {
        None
    } else {
        match first_refusal(found.drop_last()) {
            Some(e) => Some(e),
            None => match found.last() {
                (Some(_), Err(e)) => Some(e@),
                _ => None,
            },
        }
    }
}

proof fn lemma_refusal_stays(found: Seq<(Option<Attempt>, Result<(), String>)>, n: int)
    requires
        0 <= n <= found.len(),
        first_refusal(found.take(n)) is Some,
    ensures
        first_refusal(found) == first_refusal(found.take(n)),
    decreases found.len() - n,
{
    if n < found.len() {
        assert(found.take(n + 1).drop_last() =~= found.take(n));
        lemma_refusal_stays(found, n + 1);
    } else {
        assert(found.take(n) =~= found);
    }
}

/// A new record is about the state of the session that was read: its revision, its
/// cursor and its directory. It has used nothing yet, holds no notes and is blocked
/// until a result is recorded.
pub proof fn law_new_record_is_about_what_was_read(
    id: Seq<char>,
    updated_at: u64,
    revision: u64,
    directory: Seq<char>,
    cursor: Seq<char>,
    operation_id: Seq<char>,
    goal_id: Option<Seq<char>>,
)
    ensures
        ({
            let a = fresh_attempt(id, updated_at, revision, directory, cursor, operation_id, goal_id);
            &&& a.session_id == id
            &&& a.updated_at == updated_at
            &&& a.workdir == directory
            &&& a.operation_id == operation_id
            &&& a.goal_id == goal_id
            &&& a.checkpoint_target() == Some((revision, cursor))
            &&& a.usage is None && !a.unmetered_call && !a.metering_ack && a.metering_warning is None
            &&& a.blocked() && a.next_note == 0
            &&& a.explained() == a
        }),
{
}

/// The operations whose charge is pending are those of the records that were found,
/// and the first record that is refused stops the listing.
pub proof fn law_pending_operations_are_those_found(
    found: Seq<(Option<Attempt>, Result<(), String>)>,
    record: (Option<Attempt>, Result<(), String>),
)
    ensures
        record.0 matches Some(a) ==> operations(found.push(record)) == operations(found).push(
            a.operation_id@,
        ),
        record.0 is None ==> operations(found.push(record)) == operations(found),
        first_refusal(found) is Some ==> first_refusal(found.push(record)) == first_refusal(found),
        first_refusal(found) is None && record.0 is Some ==> (record.1 matches Err(e) ==> first_refusal(
            found.push(record),
        ) == Some(e@)),
        first_refusal(found) is None && (record.0 is None || record.1 is Ok) ==> first_refusal(
            found.push(record),
        ) is None,
        operations(Seq::empty()).len() == 0,
        first_refusal(Seq::empty()) is None,
{
    assert(found.push(record).drop_last() =~= found);
}

/// A record is checkpointed already where the cursor of its session is its own;
/// without a cursor its revision decides, and without a revision its time.
pub proof fn law_checkpoint_is_recognised(run: RunView, a: AttemptView)
    ensures
        a.message_cursor matches Some(cursor) ==> (run.already_checkpointed(a) <==> run.state.cursor(
            run.session_id,
        ) == Some(cursor)),
        a.message_cursor is None ==> (a.message_revision matches Some(revision) ==> (
        run.already_checkpointed(a) <==> revision <= or_zero(
            run.state.message_revisions,
            run.session_id,
        ))),
        a.message_cursor is None && a.message_revision is None ==> (run.already_checkpointed(a)
            <==> a.updated_at <= or_zero(run.state.distilled, run.session_id)),
{
}

/// Every warning of the metering is told, in order, and behind them why the charge
/// is uncertain and why the goal was stopped.
pub proof fn law_metering_is_told(
    id: Seq<char>,
    warnings: Seq<Seq<char>>,
    degraded: Option<Seq<char>>,
    stop: Option<Seq<char>>,
    i: int,
)
    ensures
        ({
            let notes = metering_notes(id, warnings, degraded, stop);
            let more: int = if degraded is Some {
                1
            } else {
                0
            };
            &&& notes.len() == warnings.len() + more + (if stop is Some {
                1int
            } else {
                0
            })
            &&& 0 <= i < warnings.len() ==> ends(notes[i], warnings[i])
            &&& degraded matches Some(w) ==> ends(notes[warnings.len() as int], w)
            &&& stop matches Some(m) ==> ends(notes.last(), m)
        }),
{
    let notes = metering_notes(id, warnings, degraded, stop);
    if 0 <= i < warnings.len() {
        lemma_about_ends(id, " metering durability repaired: "@, warnings[i]);
    }
    if let Some(w) = degraded {
        lemma_about_ends(id, " Provider metering degraded: "@, w);
        assert(notes[warnings.len() as int] == about(id, " Provider metering degraded: "@, w));
    }
    if let Some(m) = stop {
        lemma_about_ends(id, " goal stopped after consolidation charge: "@, m);
    }
}

proof fn lemma_about_ends(id: Seq<char>, what: Seq<char>, error: Seq<char>)
    ensures
        ends(about(id, what, error), error),
{
    let text = about(id, what, error);
    assert(text.subrange(text.len() - error.len(), text.len() as int) =~= error);
}

} // verus!
