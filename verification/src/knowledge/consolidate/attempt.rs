//! The durable record of one distillation: claimed before the provider is
//! called, and kept until its notes and its cost are settled.

use crate::knowledge::distill::{NewNote, NoteView};
use crate::llm::managed::TokenUsage;
use crate::text::{cat2, cat4, debug_quoted, ends_with, opt_view, quoted, starts_with, str_eq, strip_suffix};
use vstd::prelude::*;

verus! {

pub const UNKNOWN_RESULT_REASON: &'static str =
    "Provider 请求可能已经开始，但没有可复用的结果 durable 落盘；为避免重复计费，自动重试已停止。";

pub const FAILED_RESULT_REASON: &'static str =
    "Provider 请求已经开始并失败，且没有可复用的结果 durable 落盘；为避免重复计费，自动重试已停止。";

#[derive(Debug, Clone, Copy, PartialEq, Eq, Structural)]
pub enum AttemptStatus {
    ProviderResultUnknown,
    ResultRecorded,
}

#[derive(Debug)]
pub struct Attempt {
    pub session_id: String,
    pub updated_at: u64,
    pub message_revision: Option<u64>,
    pub message_cursor: Option<String>,
    pub workdir: String,
    pub operation_id: String,
    pub goal_id: Option<String>,
    pub usage: Option<TokenUsage>,
    pub unmetered_call: bool,
    pub metering_warning: Option<String>,
    pub metering_ack: bool,
    pub status: AttemptStatus,
    pub reason: Option<String>,
    pub notes: Option<Vec<NewNote>>,
    pub next_note: usize,
}

#[verifier::ext_equal]
pub struct AttemptView {
    pub session_id: Seq<char>,
    pub updated_at: u64,
    pub message_revision: Option<u64>,
    pub message_cursor: Option<Seq<char>>,
    pub workdir: Seq<char>,
    pub operation_id: Seq<char>,
    pub goal_id: Option<Seq<char>>,
    pub usage: Option<TokenUsage>,
    pub unmetered_call: bool,
    pub metering_warning: Option<Seq<char>>,
    pub metering_ack: bool,
    pub status: AttemptStatus,
    pub reason: Option<Seq<char>>,
    pub notes: Option<Seq<NoteView>>,
    pub next_note: usize,
}

/// The notes of a recorded result.
pub open spec fn notes_view(notes: Option<Vec<NewNote>>) -> Option<Seq<NoteView>> {
    match notes {
        Some(list) => Some(list@.map_values(|n: NewNote| n@)),
        None => None,
    }
}

impl View for Attempt {
    type V = AttemptView;

    open spec fn view(&self) -> AttemptView {
        AttemptView {
            session_id: self.session_id@,
            updated_at: self.updated_at,
            message_revision: self.message_revision,
            message_cursor: opt_view(self.message_cursor),
            workdir: self.workdir@,
            operation_id: self.operation_id@,
            goal_id: opt_view(self.goal_id),
            usage: self.usage,
            unmetered_call: self.unmetered_call,
            metering_warning: opt_view(self.metering_warning),
            metering_ack: self.metering_ack,
            status: self.status,
            reason: opt_view(self.reason),
            notes: notes_view(self.notes),
            next_note: self.next_note,
        }
    }
}

impl AttemptView {
    /// A call may have started, and no result of it was recorded.
    pub open spec fn blocked(self) -> bool {
        self.notes is None
    }

    /// The attempt with the status and the reason that its notes call for: a
    /// recorded result has no reason, an unknown one always has one.
    pub open spec fn explained(self) -> AttemptView {
        if self.notes is Some {
            AttemptView { status: AttemptStatus::ResultRecorded, reason: None, ..self }
        } else {
            AttemptView {
                status: AttemptStatus::ProviderResultUnknown,
                reason: Some(
                    match self.reason {
                        Some(reason) => reason,
                        None => UNKNOWN_RESULT_REASON@,
                    },
                ),
                ..self
            }
        }
    }

    pub open spec fn with_notes(self, notes: Seq<NoteView>) -> AttemptView {
        AttemptView {
            notes: Some(notes),
            status: AttemptStatus::ResultRecorded,
            reason: None,
            ..self
        }
    }

    pub open spec fn with_started_failure(self) -> AttemptView {
        AttemptView {
            notes: None,
            status: AttemptStatus::ProviderResultUnknown,
            reason: Some(FAILED_RESULT_REASON@),
            ..self
        }
    }

    /// The note cursor points into the recorded notes.
    pub open spec fn cursor_in_range(self) -> bool {
        self.notes is Some ==> self.next_note <= self.notes->0.len()
    }

    /// No usage was reported for the call, or not all of it.
    pub open spec fn usage_unknown(self) -> bool {
        self.usage is None || self.unmetered_call
    }

    /// The revision and cursor that a checkpoint of this attempt commits: only
    /// where both are known.
    pub open spec fn checkpoint_target(self) -> Option<(u64, Seq<char>)> {
        match (self.message_revision, self.message_cursor) {
            (Some(revision), Some(cursor)) => Some((revision, cursor)),
            _ => None,
        }
    }
}

impl Attempt {
    pub fn new_blocked_reason() -> (r: String)
        ensures
            r@ == UNKNOWN_RESULT_REASON@,
    {
        UNKNOWN_RESULT_REASON.to_owned()
    }

    /// Brings status and reason in line with the notes; says whether that
    /// changed anything.
    pub fn ensure_explainable_status(&mut self) -> (r: bool)
        ensures
            final(self)@ == old(self)@.explained(),
            r == (final(self)@ != old(self)@),
    {
        if self.notes.is_some() {
            let changed = self.status != AttemptStatus::ResultRecorded || self.reason.is_some();
            self.status = AttemptStatus::ResultRecorded;
            self.reason = None;
            changed
        } else {
            let changed = self.status != AttemptStatus::ProviderResultUnknown
                || self.reason.is_none();
            self.status = AttemptStatus::ProviderResultUnknown;
            if self.reason.is_none() {
                self.reason = Some(Self::new_blocked_reason());
            }
            changed
        }
    }

    pub fn record_notes(&mut self, notes: Vec<NewNote>)
        ensures
            final(self)@ == old(self)@.with_notes(notes@.map_values(|n: NewNote| n@)),
    {
        self.notes = Some(notes);
        self.status = AttemptStatus::ResultRecorded;
        self.reason = None;
    }

    pub fn record_started_failure(&mut self)
        ensures
            final(self)@ == old(self)@.with_started_failure(),
    {
        self.notes = None;
        self.status = AttemptStatus::ProviderResultUnknown;
        self.reason = Some(FAILED_RESULT_REASON.to_owned());
    }

    pub fn is_blocked(&self) -> (r: bool)
        ensures
            r == self@.blocked(),
    {
        self.notes.is_none()
    }

    pub fn reason(&self) -> (r: &str)
        ensures
            r@ == (match self@.reason {
                Some(reason) => reason,
                None => UNKNOWN_RESULT_REASON@,
            }),
    {
        match &self.reason {
            Some(reason) => reason.as_str(),
            None => UNKNOWN_RESULT_REASON,
        }
    }

    pub fn usage_unknown(&self) -> (r: bool)
        ensures
            r == self@.usage_unknown(),
    {
        self.usage.is_none() || self.unmetered_call
    }

    pub fn checkpoint_target(&self) -> (r: Option<(u64, String)>)
        ensures
            match r {
                Some(target) => self@.checkpoint_target() == Some((target.0, target.1@)),
                None => self@.checkpoint_target() is None,
            },
    {
        match (self.message_revision, &self.message_cursor) {
            (Some(revision), Some(cursor)) => Some((revision, cursor.clone())),
            _ => None,
        }
    }
}

/// A write or removal that failed: before the new contents became visible, or
/// after, so that only its durability is in doubt.
#[derive(Debug)]
pub struct PersistFailure {
    pub message: String,
    pub committed: bool,
}

impl PersistFailure {
    pub fn before(message: String) -> (r: PersistFailure)
        ensures
            r.message == message,
            !r.committed,
    {
        PersistFailure { message, committed: false }
    }

    pub fn after(message: String) -> (r: PersistFailure)
        ensures
            r.message == message,
            r.committed,
    {
        PersistFailure { message, committed: true }
    }

    pub fn committed(&self) -> (r: bool)
        ensures
            r == self.committed,
    {
        self.committed
    }

    pub fn message(&self) -> (r: &str)
        ensures
            r@ == self.message@,
    {
        self.message.as_str()
    }
}

/// A loaded record belongs to the session it was read for, and its note cursor
/// is in range.
pub open spec fn load_error(
    attempt: AttemptView,
    session_id: Seq<char>,
    path: Seq<char>,
) -> Option<Seq<char>> {
    if attempt.session_id != session_id {
        Some(
            "consolidation attempt identity mismatch: expected "@ + quoted(session_id) + ", found "@
                + quoted(attempt.session_id),
        )
    } else if !attempt.cursor_in_range() {
        Some("consolidation attempt cursor is invalid: "@ + path)
    } else {
        None
    }
}

/// Accepts a record that was read from `path` for `session_id`, or says why
/// not.
pub fn check_loaded(attempt: Attempt, session_id: &str, path: &str) -> (r: Result<Attempt, String>)
    ensures
        match load_error(attempt@, session_id@, path@) {
            None => r == Ok::<Attempt, String>(attempt),
            Some(error) => r matches Err(e) && e@ == error,
        },
{
    if !str_eq(attempt.session_id.as_str(), session_id) {
        let expected = debug_quoted(session_id);
        let found = debug_quoted(attempt.session_id.as_str());
        return Err(
            cat4(
                "consolidation attempt identity mismatch: expected ",
                expected.as_str(),
                ", found ",
                found.as_str(),
            ),
        );
    }
    let in_range = match &attempt.notes {
        Some(notes) => attempt.next_note <= notes.len(),
        None => true,
    };
    if !in_range {
        return Err(cat2("consolidation attempt cursor is invalid: ", path));
    }
    Ok(attempt)
}

/// What an entry of the attempt directory stands for: nothing where it is a
/// write that never became visible, else the session it is named after.
pub fn entry_session(name: &str, path: &str) -> (r: Result<Option<String>, String>)
    ensures
        if crate::text::starts(name@, "."@) && crate::text::ends(name@, ".tmp"@) {
            r == Ok::<Option<String>, String>(None)
        } else {
            match crate::text::before(name@, ".json"@) {
                Some(id) => r matches Ok(Some(session)) && session@ == id,
                None => r matches Err(e) && e@ == "unexpected consolidation attempt entry: "@ + path@,
            }
        },
{
    if starts_with(name, ".") && ends_with(name, ".tmp") {
        return Ok(None);
    }
    match strip_suffix(name, ".json") {
        Some(id) => Ok(Some(id)),
        None => Err(cat2("unexpected consolidation attempt entry: ", path)),
    }
}

/// Explaining a record changes no more than its status and reason: with notes its
/// result is recorded and needs no reason, without it is unknown and has one, its
/// own where it had one.
pub proof fn law_explaining_keeps_the_record(a: AttemptView)
    ensures
        ({
            let b = a.explained();
            &&& b == (AttemptView { status: b.status, reason: b.reason, ..a })
            &&& b.status == AttemptStatus::ResultRecorded <==> a.notes is Some
            &&& a.notes is Some ==> b.reason is None
            &&& a.notes is None ==> b.reason is Some
            &&& a.notes is None && a.reason is Some ==> b.reason == a.reason
            &&& b.explained() == b
        }),
{
}

/// Recording notes unblocks a record, and recording a failure blocks it; neither
/// touches its charge, its place or what it is about.
pub proof fn law_result_decides_the_block(a: AttemptView, notes: Seq<NoteView>)
    ensures
        !a.with_notes(notes).blocked(),
        a.with_notes(notes).notes == Some(notes),
        a.with_notes(notes).explained() == a.with_notes(notes),
        a.with_started_failure().blocked(),
        a.with_started_failure().reason is Some,
        a.with_started_failure().explained() == a.with_started_failure(),
        a.with_notes(notes) == (AttemptView {
            notes: a.with_notes(notes).notes,
            status: a.with_notes(notes).status,
            reason: a.with_notes(notes).reason,
            ..a
        }),
        a.with_started_failure() == (AttemptView {
            notes: a.with_started_failure().notes,
            status: a.with_started_failure().status,
            reason: a.with_started_failure().reason,
            ..a
        }),
{
}

/// A record is taken from disk exactly where it is that of its session and points
/// at one of its notes or behind them.
pub proof fn law_only_sound_records_are_taken(a: AttemptView, session_id: Seq<char>, path: Seq<char>)
    ensures
        load_error(a, session_id, path) is None <==> a.session_id == session_id && (
        a.notes matches Some(notes) ==> a.next_note <= notes.len()),
{
}

} // verus!
