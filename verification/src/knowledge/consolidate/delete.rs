//! Distilling a session before it is deleted, with the same durable attempt and
//! watermark as a background pass.

use crate::knowledge::consolidate::attempt::{
    check_loaded, load_error, Attempt, AttemptView, PersistFailure,
};
use crate::knowledge::consolidate::lease::{try_acquire, validate, Registry, SessionLease};
use crate::knowledge::consolidate::pass::{
    about, attempt_view, fresh_attempt, new_attempt, twice, uncommitted, Generated, Metering,
};
use crate::knowledge::consolidate::recovery::{
    law_recovered_record_is_the_same, recovered, Discard, DiscardView,
};
use crate::knowledge::consolidate::settlement::{SettleStep, SettleView, Settlement};
use crate::knowledge::consolidate::state::{State, StateView};
use crate::knowledge::consolidate::steps::{charge_of, claim_in_doubt, outcome, same_result, same_work};
use crate::knowledge::distill::NewNote;
use crate::session::Session;
use crate::text::{cat2, cat3, cat4, cat6, ends, opt_clone, opt_view, starts, str_eq, views};
use vstd::prelude::*;

verus! {

/// What a distillation before deletion came to.
#[derive(Debug)]
pub struct DeleteDistillResult {
    pub written: usize,
    pub diagnostics: Vec<String>,
}

/// The session to distill, as it stood when its deletion began.
#[derive(Debug)]
pub struct DeleteDistillRequest<'a> {
    pub lease: &'a SessionLease,
    pub meta: Session,
    pub transcript: Vec<String>,
    pub message_cursor: String,
    pub timeout_ms: u64,
    pub goal_id: Option<String>,
}

/// Whose settlement is under way.
#[derive(Debug, Clone, Copy, PartialEq, Eq, Structural)]
pub enum Settling {
    Resumed,
    FailedCall,
    Generated,
}

#[derive(Debug, Clone, Copy, PartialEq, Eq, Structural)]
pub enum DeleteStep {
    LoadState,
    LoadAttempt,
    Settle(Settling),
    Claim,
    RepairClaim,
    RepairClaimAgain,
    Generate,
    RemoveUnstarted,
    AddNote,
    SaveCursor,
    Checkpoint,
    RemoveFinished,
    Done,
}

pub struct DeleteRun {
    pub meta: Session,
    pub transcript: Vec<String>,
    pub message_cursor: String,
    pub timeout_ms: u64,
    pub goal_id: Option<String>,
    pub step: DeleteStep,
    pub state: State,
    pub attempt: Option<Attempt>,
    pub settlement: Option<Settlement>,
    pub warning: String,
    pub claim_warning: String,
    pub failure: String,
    pub written: usize,
    pub diagnostics: Vec<String>,
    pub error: Option<String>,
}

#[verifier::ext_equal]
pub struct DeleteView {
    pub meta: Session,
    pub transcript: Seq<Seq<char>>,
    pub message_cursor: Seq<char>,
    pub timeout_ms: u64,
    pub goal_id: Option<Seq<char>>,
    pub step: DeleteStep,
    pub state: StateView,
    pub attempt: Option<AttemptView>,
    pub settlement: Option<SettleView>,
    pub warning: Seq<char>,
    pub claim_warning: Seq<char>,
    pub failure: Seq<char>,
    pub written: usize,
    pub diagnostics: Seq<Seq<char>>,
    pub error: Option<Seq<char>>,
}

pub open spec fn settlement_view(settlement: Option<Settlement>) -> Option<SettleView> {
    match settlement {
        Some(s) => Some(s@),
        None => None,
    }
}

impl View for DeleteRun {
    type V = DeleteView;

    open spec fn view(&self) -> DeleteView {
        DeleteView {
            meta: self.meta,
            transcript: views(self.transcript@),
            message_cursor: self.message_cursor@,
            timeout_ms: self.timeout_ms,
            goal_id: opt_view(self.goal_id),
            step: self.step,
            state: self.state@,
            attempt: attempt_view(self.attempt),
            settlement: settlement_view(self.settlement),
            warning: self.warning@,
            claim_warning: self.claim_warning@,
            failure: self.failure@,
            written: self.written,
            diagnostics: views(self.diagnostics@),
            error: opt_view(self.error),
        }
    }
}

impl DeleteView {
    pub open spec fn at(self, step: DeleteStep) -> DeleteView {
        DeleteView { step, ..self }
    }

    pub open spec fn failed(self, error: Seq<char>) -> DeleteView {
        DeleteView { step: DeleteStep::Done, error: Some(error), ..self }
    }

    pub open spec fn said(self, text: Seq<char>) -> DeleteView {
        DeleteView { diagnostics: self.diagnostics.push(text), ..self }
    }

    /// The next thing to do with the notes of the attempt: write one, commit
    /// their checkpoint, or, where the attempt names none, remove it.
    pub open spec fn notes_next(self) -> DeleteView {
        let a = self.attempt->0;
        if a.next_note < a.notes->0.len() {
            self.at(DeleteStep::AddNote)
        } else if a.checkpoint_target() is Some {
            self.at(DeleteStep::Checkpoint)
        } else {
            self.at(DeleteStep::RemoveFinished)
        }
    }

    /// The settlement moved. Its end decides: a failed call and a blocked
    /// attempt end the run, a recorded result goes on to its notes.
    pub open spec fn settling(self, whose: Settling, s: SettleView) -> DeleteView {
        if s.step == SettleStep::Failed {
            DeleteView { settlement: None, attempt: Some(s.attempt), ..self }.with_all(
                s.diagnostics,
            ).failed(s.error)
        } else if s.step == SettleStep::Settled {
            let next = DeleteView {
                settlement: None,
                attempt: Some(s.attempt),
                ..self
            }.with_all(s.diagnostics);
            match whose {
                Settling::FailedCall => next.failed(
                    self.failure
                        + "; the Provider attempt remains BLOCKED and will not be retried automatically"@,
                ),
                _ => if s.attempt.blocked() {
                    next.failed(
                        "session "@ + self.meta.id@
                            + " distillation is BLOCKED because a Provider request may have started before its result was recorded; retry deletion with distill=false to discard it explicitly"@,
                    )
                } else {
                    next.notes_next()
                },
            }
        } else {
            DeleteView { settlement: Some(s), step: DeleteStep::Settle(whose), ..self }
        }
    }

    pub open spec fn with_all(self, texts: Seq<Seq<char>>) -> DeleteView {
        DeleteView { diagnostics: self.diagnostics + texts, ..self }
    }

    pub open spec fn inv(self) -> bool {
        match self.step {
            DeleteStep::LoadState | DeleteStep::LoadAttempt => true,
            DeleteStep::Done => self.error is None ==> self.is_covered(),
            DeleteStep::Settle(whose) => {
                &&& self.settlement is Some
                &&& self.settlement->0.inv()
                &&& self.settlement->0.step != SettleStep::Failed
                &&& self.settlement->0.step != SettleStep::Settled
                &&& self.settlement->0.attempt.cursor_in_range()
                &&& whose == Settling::Generated ==> self.settlement->0.attempt.notes is Some
            },
            DeleteStep::Claim | DeleteStep::RepairClaim | DeleteStep::RepairClaimAgain
            | DeleteStep::Generate | DeleteStep::RemoveUnstarted => {
                &&& self.attempt is Some
                &&& self.attempt->0.notes is None
                &&& self.attempt->0.next_note == 0
                &&& !self.attempt->0.metering_ack
            },
            DeleteStep::AddNote | DeleteStep::SaveCursor | DeleteStep::Checkpoint
            | DeleteStep::RemoveFinished => {
                &&& self.attempt is Some
                &&& self.attempt->0.notes is Some
                &&& self.attempt->0.cursor_in_range()
                &&& self.attempt->0.metering_ack
                &&& self.step == DeleteStep::AddNote ==> self.attempt->0.next_note
                    < self.attempt->0.notes->0.len()
                &&& self.step == DeleteStep::Checkpoint || self.step == DeleteStep::RemoveFinished
                    ==> self.attempt->0.next_note == self.attempt->0.notes->0.len()
                &&& self.step == DeleteStep::Checkpoint ==> self.attempt->0.checkpoint_target() is Some
                &&& self.step == DeleteStep::RemoveFinished ==> (
                self.attempt->0.checkpoint_target() matches Some(target) ==> self.state.cursor(
                    self.meta.id@,
                ) == Some(target.1))
            },
        }
    }

    /// An attempt that covers the messages to be deleted but that names no
    /// revision, so that there is nothing to checkpoint.
    pub open spec fn is_unversioned(self) -> bool {
        self.attempt matches Some(a) && a.message_cursor == Some(self.message_cursor)
            && a.message_revision is None
    }

    /// The messages to be deleted are distilled, and checkpointed unless the
    /// attempt is unversioned.
    pub open spec fn is_covered(self) -> bool {
        self.state.cursor(self.meta.id@) == Some(self.message_cursor) || self.is_unversioned()
    }

    pub open spec fn after_attempt(
        self,
        reply: Result<Option<Attempt>, String>,
        path: Seq<char>,
        operation_id: Seq<char>,
    ) -> DeleteView {
        match reply {
            Err(e) => self.failed(e@),
            Ok(None) => if self.state.cursor(self.meta.id@) == Some(self.message_cursor) {
                self.at(DeleteStep::Done)
            } else {
                DeleteView {
                    step: DeleteStep::Claim,
                    attempt: Some(
                        fresh_attempt(
                            self.meta.id@,
                            self.meta.updated_at,
                            self.meta.message_revision,
                            self.meta.directory@,
                            self.message_cursor,
                            operation_id,
                            self.goal_id,
                        ),
                    ),
                    ..self
                }
            },
            Ok(Some(a)) => match load_error(a@, self.meta.id@, path) {
                Some(e) => self.failed(e),
                None => if a@.message_revision matches Some(revision) && revision
                    > self.meta.message_revision {
                    self.failed(
                        "session "@ + self.meta.id@
                            + " distillation revision is newer than the session and is BLOCKED"@,
                    )
                } else {
                    self.settling(
                        Settling::Resumed,
                        recovered(a@),
                    )
                },
            },
        }
    }

    pub open spec fn after_claim(self, reply: Option<(Seq<char>, bool)>) -> DeleteView {
        match reply {
            None => self.at(DeleteStep::Generate),
            Some((m, true)) => DeleteView {
                step: DeleteStep::RepairClaim,
                claim_warning: m,
                ..self
            },
            Some((m, false)) => self.failed(
                about(self.attempt->0.session_id, " consolidation claim failed: "@, m),
            ),
        }
    }

    pub open spec fn after_claim_repair(self, reply: Option<(Seq<char>, bool)>) -> DeleteView {
        match reply {
            None => self.at(DeleteStep::Generate),
            Some((m, visible)) => if self.step == DeleteStep::RepairClaimAgain {
                self.failed(
                    claim_in_doubt(
                        self.attempt->0.session_id,
                        self.claim_warning,
                        twice(self.warning, m),
                    ),
                )
            } else if visible {
                DeleteView { step: DeleteStep::RepairClaimAgain, warning: m, ..self }
            } else {
                self.failed(
                    claim_in_doubt(
                        self.attempt->0.session_id,
                        self.claim_warning,
                        uncommitted(m),
                    ),
                )
            },
        }
    }

    pub open spec fn after_generated(self, g: Generated) -> DeleteView {
        let a = AttemptView {
            usage: g.usage,
            unmetered_call: g.unmetered_call,
            metering_warning: opt_view(g.metering_warning),
            ..self.attempt->0
        };
        match g.result {
            Ok(notes) => DeleteView { attempt: None, ..self }.settling(
                Settling::Generated,
                SettleView::opened(
                    a.with_notes(notes@.map_values(|n: NewNote| n@)),
                    SettleStep::PersistStatus,
                ),
            ),
            Err(e) => if g.request_started {
                DeleteView { attempt: None, failure: e@, ..self }.settling(
                    Settling::FailedCall,
                    SettleView::opened(a.with_started_failure(), SettleStep::PersistStatus),
                )
            } else {
                DeleteView {
                    attempt: Some(a),
                    failure: e@,
                    step: DeleteStep::RemoveUnstarted,
                    ..self
                }
            },
        }
    }

    pub open spec fn after_note(self, reply: Result<Option<String>, String>) -> DeleteView {
        let a = self.attempt->0;
        let description = a.notes->0[a.next_note as int].description;
        let counted = DeleteView {
            written: if self.written == usize::MAX {
                usize::MAX
            } else {
                (self.written + 1) as usize
            },
            ..self
        };
        match reply {
            Ok(None) => DeleteView {
                step: DeleteStep::SaveCursor,
                attempt: Some(AttemptView { next_note: (a.next_note + 1) as usize, ..a }),
                ..counted
            },
            Ok(Some(warning)) => counted.failed(
                "note '"@ + description + "' is visible but durability is indeterminate: "@
                    + warning@,
            ),
            Err(e) => self.failed("persist note '"@ + description + "': "@ + e@),
        }
    }

    pub open spec fn after_checkpoint(self, reply: Result<bool, String>) -> DeleteView {
        let target = self.attempt->0.checkpoint_target()->0;
        match reply {
            Ok(true) => DeleteView {
                step: DeleteStep::RemoveFinished,
                state: StateView {
                    message_revisions: self.state.message_revisions.insert(
                        self.meta.id@,
                        target.0,
                    ),
                    message_cursors: self.state.message_cursors.insert(self.meta.id@, target.1),
                    ..self.state
                },
                ..self
            },
            Ok(false) => self.failed(
                "session "@ + self.meta.id@
                    + " distillation watermark is newer than the deletion snapshot and is BLOCKED"@,
            ),
            Err(e) => self.failed(
                about(self.meta.id@, " distillation watermark durability is indeterminate: "@, e@),
            ),
        }
    }

    /// The attempt is gone. The run is done where it covered the messages to be
    /// deleted; else they are still to be distilled.
    pub open spec fn after_removed(self, reply: Option<(Seq<char>, bool)>) -> DeleteView {
        if self.step == DeleteStep::RemoveUnstarted {
            let told = match reply {
                None => self,
                Some((m, _)) => self.said(
                    about(self.meta.id@, " unused consolidation claim cleanup failed: "@, m),
                ),
            };
            told.failed(self.failure)
        } else {
            let told = match reply {
                None => self,
                Some((m, _)) => self.said(
                    about(
                        self.meta.id@,
                        " completed distillation attempt cleanup needs retry: "@,
                        m,
                    ),
                ),
            };
            if self.attempt->0.message_cursor == Some(self.message_cursor) {
                told.at(DeleteStep::Done)
            } else {
                told.at(DeleteStep::LoadState)
            }
        }
    }
}

/// Opens the distillation of a session that its owner is about to delete.
pub fn run_for_delete(request: DeleteDistillRequest<'_>) -> (r: Result<DeleteRun, String>)
    ensures
        if request.lease@ != request.meta.id@ {
            r matches Err(e) && e@ == "consolidation lease "@ + request.lease@
                + " does not match session "@ + request.meta.id@
        } else {
            &&& r matches Ok(run)
            &&& run@.inv()
            &&& run@.step == DeleteStep::LoadState
            &&& run@.meta == request.meta
            &&& run@.transcript == views(request.transcript@)
            &&& run@.message_cursor == request.message_cursor@
            &&& run@.timeout_ms == request.timeout_ms
            &&& run@.goal_id == opt_view(request.goal_id)
            &&& run@.written == 0
            &&& run@.diagnostics == Seq::<Seq<char>>::empty()
            &&& run@.error is None
        },
{
    match validate(request.lease, request.meta.id.as_str()) {
        Err(e) => Err(e),
        Ok(_) => {
            let run = DeleteRun {
                meta: request.meta,
                transcript: request.transcript,
                message_cursor: request.message_cursor,
                timeout_ms: request.timeout_ms,
                goal_id: request.goal_id,
                step: DeleteStep::LoadState,
                state: State::new(),
                attempt: None,
                settlement: None,
                warning: String::new(),
                claim_warning: String::new(),
                failure: String::new(),
                written: 0,
                diagnostics: Vec::new(),
                error: None,
            };
            assert(run@.diagnostics =~= Seq::<Seq<char>>::empty());
            Ok(run)
        },
    }
}

impl DeleteRun {
    fn fail(&mut self, error: String)
        ensures
            final(self)@ == old(self)@.failed(error@),
    {
        self.error = Some(error);
        self.step = DeleteStep::Done;
    }

    fn say(&mut self, what: &str, error: &str)
        ensures
            final(self)@ == old(self)@.said(about(old(self)@.meta.id@, what@, error@)),
    {
        let text = cat4("session ", self.meta.id.as_str(), what, error);
        let ghost before = self.diagnostics@;
        let ghost t = text@;
        self.diagnostics.push(text);
        assert(views(self.diagnostics@) =~= views(before).push(t));
    }

    fn go_notes_next(&mut self)
        requires
            old(self)@.attempt is Some,
            old(self)@.attempt->0.notes is Some,
        ensures
            final(self)@ == old(self)@.notes_next(),
    {
        let next: DeleteStep = match &self.attempt {
            Some(a) => {
                let open = match &a.notes {
                    Some(notes) => a.next_note < notes.len(),
                    None => false,
                };
                if open {
                    DeleteStep::AddNote
                } else if a.message_revision.is_some() && a.message_cursor.is_some() {
                    DeleteStep::Checkpoint
                } else {
                    DeleteStep::RemoveFinished
                }
            },
            None => DeleteStep::Done,
        };
        self.step = next;
    }

    fn go_settling(&mut self, whose: Settling, settlement: Settlement)
        requires
            settlement@.inv(),
            settlement@.attempt.cursor_in_range(),
            whose == Settling::Generated ==> settlement@.attempt.notes is Some,
        ensures
            final(self)@ == old(self)@.settling(whose, settlement@),
            final(self)@.inv(),
    {
        if settlement.step != SettleStep::Failed && settlement.step != SettleStep::Settled {
            self.settlement = Some(settlement);
            self.step = DeleteStep::Settle(whose);
            return;
        }
        let ghost s = settlement@;
        let mut texts = settlement.diagnostics;
        let ghost before = self.diagnostics@;
        let ghost added = texts@;
        self.diagnostics.append(&mut texts);
        assert(views(self.diagnostics@) =~= views(before) + views(added));
        let blocked = settlement.attempt.is_blocked();
        self.settlement = None;
        self.attempt = Some(settlement.attempt);
        if settlement.step == SettleStep::Failed {
            self.fail(settlement.error);
            return;
        }
        match whose {
            Settling::FailedCall => {
                let text = cat2(
                    self.failure.as_str(),
                    "; the Provider attempt remains BLOCKED and will not be retried automatically",
                );
                self.fail(text);
            },
            _ => {
                if blocked {
                    let text = cat3(
                        "session ",
                        self.meta.id.as_str(),
                        " distillation is BLOCKED because a Provider request may have started before its result was recorded; retry deletion with distill=false to discard it explicitly",
                    );
                    self.fail(text);
                } else {
                    self.go_notes_next();
                }
            },
        }
    }

    /// For the watermarks, at the start and whenever an older attempt was
    /// finished.
    pub fn on_state(&mut self, reply: Result<State, String>)
        requires
            old(self)@.step == DeleteStep::LoadState,
        ensures
            final(self)@ == (match reply {
                Ok(state) => DeleteView {
                    step: DeleteStep::LoadAttempt,
                    state: state@,
                    ..old(self)@
                },
                Err(e) => old(self)@.failed(e@),
            }),
            final(self)@.inv(),
    {
        match reply {
            Ok(state) => {
                self.state = state;
                self.step = DeleteStep::LoadAttempt;
            },
            Err(e) => self.fail(e),
        }
    }

    pub fn on_attempt(
        &mut self,
        reply: Result<Option<Attempt>, String>,
        path: &str,
        operation_id: String,
    )
        requires
            old(self)@.step == DeleteStep::LoadAttempt,
        ensures
            final(self)@ == old(self)@.after_attempt(reply, path@, operation_id@),
            final(self)@.inv(),
            final(self)@.step == DeleteStep::Claim ==> reply == Ok::<Option<Attempt>, String>(None),
    {
        match reply {
            Err(e) => self.fail(e),
            Ok(None) => {
                if self.state.cursor_is(self.meta.id.as_str(), self.message_cursor.as_str()) {
                    self.step = DeleteStep::Done;
                } else {
                    let cursor = self.message_cursor.clone();
                    let goal_id = opt_clone(&self.goal_id);
                    self.attempt = Some(new_attempt(&self.meta, cursor, operation_id, goal_id));
                    self.step = DeleteStep::Claim;
                }
            },
            Ok(Some(found)) => match check_loaded(found, self.meta.id.as_str(), path) {
                Err(e) => self.fail(e),
                Ok(a) => {
                    let newer = match a.message_revision {
                        Some(revision) => revision > self.meta.message_revision,
                        None => false,
                    };
                    if newer {
                        let text = cat3(
                            "session ",
                            self.meta.id.as_str(),
                            " distillation revision is newer than the session and is BLOCKED",
                        );
                        self.fail(text);
                    } else {
                        let settlement = Settlement::recover(a);
                        self.go_settling(Settling::Resumed, settlement);
                    }
                },
            },
        }
    }

    /// For a write of the attempt under settlement.
    pub fn on_settlement_persisted(&mut self, reply: Result<(), PersistFailure>)
        requires
            old(self)@.inv(),
            old(self)@.step is Settle,
            old(self)@.settlement->0.persists(),
        ensures
            final(self)@ == (DeleteView { settlement: None, ..old(self)@ }).settling(
                old(self)@.step->Settle_0,
                old(self)@.settlement->0.after_persist(outcome(reply)),
            ),
            final(self)@.inv(),
    {
        let whose = match self.step {
            DeleteStep::Settle(whose) => whose,
            _ => Settling::Resumed,
        };
        if let Some(mut settlement) = self.settlement.take() {
            settlement.on_persisted(reply);
            self.go_settling(whose, settlement);
        }
    }

    pub fn on_metered(&mut self, reply: Result<Metering, String>)
        requires
            old(self)@.inv(),
            old(self)@.step is Settle,
            old(self)@.settlement->0.step == SettleStep::Meter,
        ensures
            final(self)@ == (DeleteView { settlement: None, ..old(self)@ }).settling(
                old(self)@.step->Settle_0,
                old(self)@.settlement->0.after_metered(reply),
            ),
            final(self)@.inv(),
    {
        let whose = match self.step {
            DeleteStep::Settle(whose) => whose,
            _ => Settling::Resumed,
        };
        if let Some(mut settlement) = self.settlement.take() {
            settlement.on_metered(reply);
            self.go_settling(whose, settlement);
        }
    }

    pub fn on_claimed(&mut self, reply: Result<(), PersistFailure>)
        requires
            old(self)@.inv(),
            old(self)@.step == DeleteStep::Claim,
        ensures
            final(self)@ == old(self)@.after_claim(outcome(reply)),
            final(self)@.inv(),
    {
        match reply {
            Ok(_) => {
                self.step = DeleteStep::Generate;
            },
            Err(f) => {
                if f.committed {
                    self.claim_warning = f.message;
                    self.step = DeleteStep::RepairClaim;
                } else {
                    let id = self.attempt_id();
                    let text = cat4(
                        "session ",
                        id.as_str(),
                        " consolidation claim failed: ",
                        f.message.as_str(),
                    );
                    self.fail(text);
                }
            },
        }
    }

    fn attempt_id(&self) -> (r: String)
        requires
            self@.attempt is Some,
        ensures
            r@ == self@.attempt->0.session_id,
    {
        match &self.attempt {
            Some(a) => a.session_id.clone(),
            None => String::new(),
        }
    }

    /// For the rewrite of a claim that was visible but perhaps not durable.
    pub fn on_claim_repaired(&mut self, reply: Result<(), PersistFailure>)
        requires
            old(self)@.inv(),
            old(self)@.step == DeleteStep::RepairClaim || old(self)@.step
                == DeleteStep::RepairClaimAgain,
        ensures
            final(self)@ == old(self)@.after_claim_repair(outcome(reply)),
            final(self)@.inv(),
    {
        match reply {
            Ok(_) => {
                self.step = DeleteStep::Generate;
            },
            Err(f) => {
                let id = self.attempt_id();
                let repair = if self.step == DeleteStep::RepairClaimAgain {
                    cat4(
                        "attempt was visible but durability repair failed: ",
                        self.warning.as_str(),
                        "; ",
                        f.message.as_str(),
                    )
                } else if f.committed {
                    self.warning = f.message;
                    self.step = DeleteStep::RepairClaimAgain;
                    return;
                } else {
                    cat2("attempt was not committed: ", f.message.as_str())
                };
                let text = cat6(
                    "session ",
                    id.as_str(),
                    " consolidation claim durability is indeterminate: ",
                    self.claim_warning.as_str(),
                    "; ",
                    repair.as_str(),
                );
                self.fail(text);
            },
        }
    }

    pub fn on_generated(&mut self, reply: Generated)
        requires
            old(self)@.inv(),
            old(self)@.step == DeleteStep::Generate,
        ensures
            final(self)@ == old(self)@.after_generated(reply),
            final(self)@.inv(),
    {
        if let Some(mut a) = self.attempt.take() {
            a.usage = reply.usage;
            a.unmetered_call = reply.unmetered_call;
            a.metering_warning = reply.metering_warning;
            match reply.result {
                Ok(notes) => {
                    a.record_notes(notes);
                    self.go_settling(Settling::Generated, Settlement::keep(a));
                },
                Err(e) => {
                    self.failure = e;
                    if reply.request_started {
                        a.record_started_failure();
                        self.go_settling(Settling::FailedCall, Settlement::keep(a));
                    } else {
                        self.attempt = Some(a);
                        self.step = DeleteStep::RemoveUnstarted;
                    }
                },
            }
        }
    }

    pub fn on_note(&mut self, reply: Result<Option<String>, String>)
        requires
            old(self)@.inv(),
            old(self)@.step == DeleteStep::AddNote,
        ensures
            final(self)@ == old(self)@.after_note(reply),
            final(self)@.inv(),
    {
        let mut len: usize = 0;
        let description = match &self.attempt {
            Some(a) => match &a.notes {
                Some(notes) => {
                    len = notes.len();
                    notes[a.next_note].description.clone()
                },
                None => String::new(),
            },
            None => String::new(),
        };
        assert(self@.attempt->0.next_note < len);
        match reply {
            Ok(None) => {
                self.written = self.written.saturating_add(1);
                if let Some(mut a) = self.attempt.take() {
                    a.next_note = a.next_note + 1;
                    self.attempt = Some(a);
                }
                self.step = DeleteStep::SaveCursor;
            },
            Ok(Some(warning)) => {
                self.written = self.written.saturating_add(1);
                let text = cat4(
                    "note '",
                    description.as_str(),
                    "' is visible but durability is indeterminate: ",
                    warning.as_str(),
                );
                self.fail(text);
            },
            Err(e) => {
                let text = cat4("persist note '", description.as_str(), "': ", e.as_str());
                self.fail(text);
            },
        }
    }

    pub fn on_cursor_saved(&mut self, reply: Result<(), PersistFailure>)
        requires
            old(self)@.inv(),
            old(self)@.step == DeleteStep::SaveCursor,
        ensures
            final(self)@ == (match outcome(reply) {
                None => old(self)@.notes_next(),
                Some((m, _)) => old(self)@.failed("persist note cursor: "@ + m),
            }),
            final(self)@.inv(),
    {
        match reply {
            Ok(_) => self.go_notes_next(),
            Err(f) => {
                let text = cat2("persist note cursor: ", f.message.as_str());
                self.fail(text);
            },
        }
    }

    pub fn on_checkpointed(&mut self, reply: Result<bool, String>)
        requires
            old(self)@.inv(),
            old(self)@.step == DeleteStep::Checkpoint,
        ensures
            final(self)@ == old(self)@.after_checkpoint(reply),
            final(self)@.inv(),
    {
        match reply {
            Ok(committed) => {
                if committed {
                    let target = match &self.attempt {
                        Some(a) => a.checkpoint_target(),
                        None => None,
                    };
                    if let Some((revision, cursor)) = target {
                        let ghost text = cursor@;
                        self.state.message_revisions.insert(self.meta.id.as_str(), revision);
                        self.state.message_cursors.insert(self.meta.id.as_str(), cursor);
                        assert(self@.state.message_cursors =~= old(
                            self,
                        )@.state.message_cursors.insert(self.meta.id@, text));
                    }
                    self.step = DeleteStep::RemoveFinished;
                } else {
                    let text = cat3(
                        "session ",
                        self.meta.id.as_str(),
                        " distillation watermark is newer than the deletion snapshot and is BLOCKED",
                    );
                    self.fail(text);
                }
            },
            Err(e) => {
                let text = cat4(
                    "session ",
                    self.meta.id.as_str(),
                    " distillation watermark durability is indeterminate: ",
                    e.as_str(),
                );
                self.fail(text);
            },
        }
    }

    pub fn on_removed(&mut self, reply: Result<(), PersistFailure>)
        requires
            old(self)@.inv(),
            old(self)@.step == DeleteStep::RemoveUnstarted || old(self)@.step
                == DeleteStep::RemoveFinished,
        ensures
            final(self)@ == old(self)@.after_removed(outcome(reply)),
            final(self)@.inv(),
    {
        if self.step == DeleteStep::RemoveUnstarted {
            if let Err(f) = reply {
                self.say(" unused consolidation claim cleanup failed: ", f.message.as_str());
            }
            let failure = self.failure.clone();
            self.fail(failure);
            return;
        }
        if let Err(f) = reply {
            self.say(
                " completed distillation attempt cleanup needs retry: ",
                f.message.as_str(),
            );
        }
        let covered = match &self.attempt {
            Some(a) => match &a.message_cursor {
                Some(cursor) => str_eq(cursor.as_str(), self.message_cursor.as_str()),
                None => false,
            },
            None => false,
        };
        if covered {
            self.step = DeleteStep::Done;
        } else {
            self.step = DeleteStep::LoadState;
        }
    }

    /// What the distillation came to.
    pub fn result(self) -> (r: Result<DeleteDistillResult, String>)
        requires
            self@.step == DeleteStep::Done,
        ensures
            match self@.error {
                Some(error) => r matches Err(e) && e@ == error,
                None => r matches Ok(done) && done.written == self@.written && views(
                    done.diagnostics@,
                ) == self@.diagnostics,
            },
    {
        match self.error {
            Some(e) => Err(e),
            None => Ok(
                DeleteDistillResult { written: self.written, diagnostics: self.diagnostics },
            ),
        }
    }
}

/// Nothing is written, checkpointed or removed, except a claim whose call never
/// started, before its charge was acknowledged, and the checkpoint waits for
/// every note.
pub proof fn law_deletion_order(run: DeleteView)
    requires
        run.inv(),
    ensures
        run.step == DeleteStep::AddNote || run.step == DeleteStep::Checkpoint || run.step
            == DeleteStep::RemoveFinished ==> run.attempt->0.metering_ack,
        run.step == DeleteStep::Checkpoint || run.step == DeleteStep::RemoveFinished
            ==> run.attempt->0.next_note == run.attempt->0.notes->0.len(),
{
}

/// A deletion that ends well has checkpointed the cursor of its caller, so that
/// no message goes undistilled. An attempt of before there were revisions names
/// none to checkpoint.
pub proof fn law_deletion_ends_checkpointed(run: DeleteView)
    requires
        run.inv(),
        run.step == DeleteStep::Done,
        run.error is None,
        !run.is_unversioned(),
    ensures
        run.state.cursor(run.meta.id@) == Some(run.message_cursor),
{
}

/// A finished attempt is removed only after its own cursor was checkpointed, and
/// one that covers less than the caller's snapshot does not end the deletion.
pub proof fn law_removal_waits_for_the_checkpoint(run: DeleteView, reply: Option<(Seq<char>, bool)>)
    requires
        run.inv(),
        run.step == DeleteStep::RemoveFinished,
    ensures
        run.attempt->0.checkpoint_target() matches Some(target) ==> run.state.cursor(run.meta.id@)
            == Some(target.1),
        run.attempt->0.message_cursor != Some(run.message_cursor) ==> run.after_removed(reply).step
            == DeleteStep::LoadState,
{
}

/// A deletion that finds an attempt without a result never calls the provider:
/// it ends blocked, or is still settling what the earlier call cost.
pub proof fn law_blocked_attempt_ends_the_deletion(
    run: DeleteView,
    a: Attempt,
    path: Seq<char>,
    operation_id: Seq<char>,
)
    requires
        a@.blocked(),
    ensures
        ({
            let next = run.after_attempt(Ok(Some(a)), path, operation_id);
            next.error is Some && next.step == DeleteStep::Done || next.step == DeleteStep::Settle(
                Settling::Resumed,
            )
        }),
        forall|s: SettleView|
            s.attempt.blocked() && s.step == SettleStep::Settled ==> #[trigger] run.settling(
                Settling::Resumed,
                s,
            ).error is Some,
{
}

/// Opens the discard of a session's attempt, for the owner of the session.
pub fn discard_for_session_leased(lease: &SessionLease, session_id: &str) -> (r: Result<
    Discard,
    String,
>)
    ensures
        if lease@ == session_id@ {
            r matches Ok(d) && d@ == DiscardView::started(session_id@)
        } else {
            r matches Err(e) && e@ == "consolidation lease "@ + lease@ + " does not match session "@
                + session_id@
        },
{
    match validate(lease, session_id) {
        Err(e) => Err(e),
        Ok(_) => Ok(Discard::start(session_id)),
    }
}

/// Takes the session and opens the discard of its attempt.
pub fn discard_for_session(
    registry: &mut Registry,
    session_id: &str,
    id_check: Result<(), String>,
) -> (r: Result<(SessionLease, Discard), String>)
    ensures
        match id_check {
            Err(error) => {
                &&& r matches Err(e)
                &&& e == error
                &&& final(registry)@ == old(registry)@
            },
            Ok(_) => if old(registry)@.contains(session_id@) {
                &&& r matches Err(e)
                &&& e@ == "session "@ + session_id@ + " consolidation is active in this process"@
                &&& final(registry)@ == old(registry)@
            } else {
                &&& r matches Ok(opened)
                &&& opened.0@ == session_id@
                &&& opened.1@ == DiscardView::started(session_id@)
                &&& final(registry)@ == old(registry)@.insert(session_id@)
            },
        },
{
    match try_acquire(registry, session_id, id_check) {
        Err(e) => Err(e),
        Ok(lease) => match discard_for_session_leased(&lease, session_id) {
            Err(e) => Err(e),
            Ok(discard) => Ok((lease, discard)),
        },
    }
}

/// The deletion ends here, with an error that ends with the one it met.
pub open spec fn ends_with_error(run: DeleteView, next: DeleteView, error: Seq<char>) -> bool {
    &&& next.step == DeleteStep::Done
    &&& next.error matches Some(e) && ends(e, error)
    &&& next.written == run.written
}

proof fn lemma_ends(head: Seq<char>, error: Seq<char>)
    ensures
        ends(head + error, error),
        ends(error, error),
{
    let text = head + error;
    assert(text.subrange(text.len() - error.len(), text.len() as int) =~= error);
    assert(error.subrange(0, error.len() as int) =~= error);
}

/// From the provider's reply to the charge: the tokens that the call reported are
/// the ones that are charged, and its cost counts as unknown only where none were
/// reported or the reply says so. The record is written before that. A call that
/// never began is not charged; its claim is taken back.
pub proof fn law_deletion_charges_as_reported(run: DeleteView, g: Generated)
    requires
        run.inv(),
        run.step == DeleteStep::Generate,
    ensures
        ({
            let next = run.after_generated(g);
            let s = next.settlement->0;
            let begun = g.result is Ok || g.request_started;
            &&& begun ==> {
                &&& next.step is Settle
                &&& next.settlement is Some
                &&& s.step == SettleStep::PersistStatus
                &&& charge_of(s.attempt).0 == g.usage
                &&& charge_of(s.attempt).1 == (g.usage is None || g.unmetered_call)
                &&& s.attempt.metering_warning == opt_view(g.metering_warning)
                &&& same_work(s.attempt, run.attempt->0)
                &&& !s.attempt.metering_ack
                &&& s.after_persist(None).step == SettleStep::Meter
                &&& s.after_persist(None).attempt == s.attempt
            }
            &&& !begun ==> next.step == DeleteStep::RemoveUnstarted
            &&& g.result matches Ok(notes) ==> {
                &&& s.attempt.notes is Some
                &&& s.attempt.notes->0.len() == notes@.len()
                &&& s.attempt.next_note == 0
                &&& forall|i: int|
                    0 <= i < notes@.len() ==> (#[trigger] s.attempt.notes->0[i]) == notes@[i]@
            }
            &&& g.result matches Err(e) ==> next.failure == e@ && (begun ==> s.attempt.notes is None)
            &&& next.written == run.written
        }),
{
}

/// A session whose cursor was checkpointed needs nothing more; any other without a
/// record is claimed, for the session and the messages that are to be deleted.
pub proof fn law_deletion_claims_what_is_deleted(
    run: DeleteView,
    path: Seq<char>,
    operation_id: Seq<char>,
)
    requires
        run.step == DeleteStep::LoadAttempt,
    ensures
        ({
            let next = run.after_attempt(Ok(None), path, operation_id);
            let a = next.attempt->0;
            &&& next.step == DeleteStep::Done <==> run.state.cursor(run.meta.id@) == Some(
                run.message_cursor,
            )
            &&& next.error == run.error
            &&& next.step != DeleteStep::Done ==> {
                &&& next.step == DeleteStep::Claim
                &&& next.attempt is Some
                &&& a.session_id == run.meta.id@
                &&& a.updated_at == run.meta.updated_at
                &&& a.message_revision == Some(run.meta.message_revision)
                &&& a.message_cursor == Some(run.message_cursor)
                &&& a.workdir == run.meta.directory@
                &&& a.operation_id == operation_id
                &&& a.goal_id == run.goal_id
                &&& a.usage is None && !a.unmetered_call && !a.metering_ack
                &&& a.notes is None && a.next_note == 0
            }
        }),
{
}

/// A record that was found goes on as it is, where it is the session's own and not
/// newer than the session; else it stops the deletion.
pub proof fn law_deletion_takes_up_its_record(
    run: DeleteView,
    a: Attempt,
    path: Seq<char>,
    operation_id: Seq<char>,
)
    requires
        run.step == DeleteStep::LoadAttempt,
    ensures
        ({
            let next = run.after_attempt(Ok(Some(a)), path, operation_id);
            let usable = a@.session_id == run.meta.id@ && (a@.notes is Some ==> a@.next_note
                <= a@.notes->0.len()) && (a@.message_revision matches Some(revision) ==> revision
                <= run.meta.message_revision);
            &&& !usable ==> next.step == DeleteStep::Done && next.error is Some && next.attempt
                == run.attempt
            &&& usable && next.step is Settle ==> same_result(next.settlement->0.attempt, a@)
                && next.settlement->0.attempt.next_note == a@.next_note
            &&& usable && !(next.step is Settle) ==> (next.attempt matches Some(own) && same_result(
                own,
                a@,
            ) && own.next_note == a@.next_note && a@.metering_ack)
            &&& usable && !a@.metering_ack ==> next.step is Settle
        }),
{
    law_recovered_record_is_the_same(a@);
}

/// What a settled record leads to: its notes where it has any, and an error where
/// its result is unknown or its call failed, which is then told.
pub proof fn law_settled_deletion_goes_on(run: DeleteView, whose: Settling, s: SettleView)
    ensures
        ({
            let next = run.settling(whose, s);
            &&& s.step == SettleStep::Failed ==> next.step == DeleteStep::Done && next.error == Some(
                s.error,
            ) && next.attempt == Some(s.attempt)
            &&& s.step == SettleStep::Settled ==> {
                &&& next.attempt == Some(s.attempt)
                &&& next.diagnostics == run.diagnostics + s.diagnostics
                &&& whose == Settling::FailedCall ==> next.step == DeleteStep::Done && (
                next.error matches Some(e) && starts(e, run.failure))
                &&& whose != Settling::FailedCall && s.attempt.notes is None ==> next.step
                    == DeleteStep::Done && next.error is Some
                &&& whose != Settling::FailedCall && s.attempt.notes is Some ==> after_notes_step(next)
                    && next.error == run.error
            }
            &&& s.step != SettleStep::Failed && s.step != SettleStep::Settled ==> next.step
                == DeleteStep::Settle(whose) && next.settlement == Some(s)
            &&& next.written == run.written
        }),
{
    let text = run.failure
        + "; the Provider attempt remains BLOCKED and will not be retried automatically"@;
    assert(text.subrange(0, run.failure.len() as int) =~= run.failure);
}

/// Where a deletion stands while its notes are written: at the next one, and only
/// behind the last one at the checkpoint, or at the removal where there is nothing
/// to checkpoint.
pub open spec fn after_notes_step(run: DeleteView) -> bool {
    let a = run.attempt->0;
    if a.next_note < a.notes->0.len() {
        run.step == DeleteStep::AddNote
    } else if a.message_revision is Some && a.message_cursor is Some {
        run.step == DeleteStep::Checkpoint
    } else {
        run.step == DeleteStep::RemoveFinished
    }
}

/// A note that was written is counted and passed, and no other; one that was not
/// stays the next, and the deletion ends with the error.
pub proof fn law_deletion_writes_notes_in_turn(run: DeleteView, warning: String, error: String)
    requires
        run.inv(),
        run.step == DeleteStep::AddNote,
        run.attempt->0.notes->0.len() <= usize::MAX,
        run.written < usize::MAX,
    ensures
        ({
            let kept = run.after_note(Ok(None));
            let doubtful = run.after_note(Ok(Some(warning)));
            let lost = run.after_note(Err(error));
            &&& kept.step == DeleteStep::SaveCursor
            &&& kept.written == run.written + 1
            &&& kept.attempt is Some
            &&& same_result(kept.attempt->0, run.attempt->0)
            &&& kept.attempt->0.next_note == run.attempt->0.next_note + 1
            &&& kept.attempt->0.metering_ack
            &&& kept.error == run.error
            &&& doubtful.step == DeleteStep::Done
            &&& doubtful.written == run.written + 1
            &&& doubtful.attempt == run.attempt
            &&& doubtful.error matches Some(e) && ends(e, warning@)
            &&& ends_with_error(run, lost, error@)
            &&& lost.attempt == run.attempt
        }),
        run.notes_next().attempt == run.attempt,
        after_notes_step(run.notes_next()),
{
    let a = run.attempt->0;
    let description = a.notes->0[a.next_note as int].description;
    lemma_ends(
        "note '"@ + description + "' is visible but durability is indeterminate: "@,
        warning@,
    );
    lemma_ends("persist note '"@ + description + "': "@, error@);
}

/// A claim that was written leads to the call. One that was visible is written
/// again, and one that is lost or stays in doubt ends the deletion with its error
/// before any call.
pub proof fn law_deletion_calls_behind_its_claim(run: DeleteView, message: Seq<char>)
    requires
        run.inv(),
        run.step == DeleteStep::Claim || run.step == DeleteStep::RepairClaim || run.step
            == DeleteStep::RepairClaimAgain,
    ensures
        run.after_claim(None) == run.at(DeleteStep::Generate),
        run.after_claim_repair(None) == run.at(DeleteStep::Generate),
        run.after_claim(Some((message, true))).step == DeleteStep::RepairClaim,
        run.after_claim(Some((message, true))).attempt == run.attempt,
        run.after_claim(Some((message, true))).claim_warning == message,
        ends_with_error(run, run.after_claim(Some((message, false))), message),
        ends_with_error(run, run.after_claim_repair(Some((message, false))), message),
        run.step == DeleteStep::RepairClaim ==> run.after_claim_repair(
            Some((message, true)),
        ).step == DeleteStep::RepairClaimAgain,
        run.step == DeleteStep::RepairClaimAgain ==> ends_with_error(
            run,
            run.after_claim_repair(Some((message, true))),
            message,
        ),
{
    let id = run.attempt->0.session_id;
    lemma_ends("session "@ + id + " consolidation claim failed: "@, message);
    let a = claim_in_doubt(id, run.claim_warning, uncommitted(message));
    let b = claim_in_doubt(id, run.claim_warning, twice(run.warning, message));
    assert(a.subrange(a.len() - message.len(), a.len() as int) =~= message);
    assert(b.subrange(b.len() - message.len(), b.len() as int) =~= message);
}

/// A checkpoint that was committed is the record's own, and only behind it is the
/// record removed. One that is behind a newer one, or that failed, stops the
/// deletion.
pub proof fn law_deletion_checkpoints_its_record(run: DeleteView, error: String)
    requires
        run.inv(),
        run.step == DeleteStep::Checkpoint,
    ensures
        ({
            let next = run.after_checkpoint(Ok(true));
            &&& next.step == DeleteStep::RemoveFinished
            &&& next.attempt == run.attempt
            &&& next.state.cursor(run.meta.id@) == run.attempt->0.message_cursor
            &&& next.error == run.error
            &&& run.after_checkpoint(Ok(false)).step == DeleteStep::Done
            &&& run.after_checkpoint(Ok(false)).error is Some
            &&& ends_with_error(run, run.after_checkpoint(Err(error)), error@)
        }),
{
    lemma_ends(
        "session "@ + run.meta.id@ + " distillation watermark durability is indeterminate: "@,
        error@,
    );
}

/// Behind a removal the deletion is through where the record was of the messages
/// that are deleted, and else looks again. A claim that was taken back ends with
/// the failure of its call. A removal that failed is told.
pub proof fn law_deletion_removal_is_told(run: DeleteView, message: Seq<char>, visible: bool)
    requires
        run.inv(),
        run.step == DeleteStep::RemoveUnstarted || run.step == DeleteStep::RemoveFinished,
    ensures
        ({
            let clean = run.after_removed(None);
            let stuck = run.after_removed(Some((message, visible)));
            &&& clean.diagnostics == run.diagnostics
            &&& stuck.diagnostics.len() == run.diagnostics.len() + 1
            &&& ends(stuck.diagnostics.last(), message)
            &&& stuck.step == clean.step && stuck.error == clean.error
            &&& run.step == DeleteStep::RemoveUnstarted ==> clean.step == DeleteStep::Done
                && clean.error == Some(run.failure)
            &&& run.step == DeleteStep::RemoveFinished ==> clean.error == run.error && (clean.step
                == DeleteStep::Done <==> run.attempt->0.message_cursor == Some(run.message_cursor))
            &&& clean.written == run.written
        }),
{
    lemma_ends(
        "session "@ + run.meta.id@ + " unused consolidation claim cleanup failed: "@,
        message,
    );
    lemma_ends(
        "session "@ + run.meta.id@ + " completed distillation attempt cleanup needs retry: "@,
        message,
    );
}

} // verus!
