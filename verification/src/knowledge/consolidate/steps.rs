//! The steps of a session's run: each method takes the outcome of the step that
//! the run stands at, and moves it on.

use crate::knowledge::consolidate::attempt::{
    check_loaded, load_error, Attempt, AttemptView, PersistFailure,
};
use crate::knowledge::consolidate::pass::{
    about, follows, fresh_attempt, metering_failure, metering_notes,
    prepare_new_attempt, removal_failure, status_failure, twice, uncommitted, Generated, GoalFocus,
    Metering, Origin, ReadFailure, Removal, RunView, RuntimeBudget, SessionRun, Snapshot, Step,
    TRANSCRIPT_MESSAGES,
};
use crate::knowledge::consolidate::state::State;
use crate::knowledge::distill::{NewNote, DISTILL_TIMEOUT};
use crate::session::{recent, spoken};
use crate::llm::managed::TokenUsage;
use crate::text::{cat2, cat3, cat4, cat7, decimal, decimal_of, ends, opt_view, starts, views};
use vstd::prelude::*;

verus! {

/// A failed write, by its message and whether it was visible.
pub open spec fn outcome(r: Result<(), PersistFailure>) -> Option<(Seq<char>, bool)> {
    match r {
        Ok(_) => None,
        Err(f) => Some((f.message@, f.committed)),
    }
}

/// A claim that became visible, and whose repair failed.
pub open spec fn claim_in_doubt(id: Seq<char>, claim: Seq<char>, repair: Seq<char>) -> Seq<char> {
    "session "@ + id + " consolidation claim durability is indeterminate: "@ + claim + "; "@ + repair
}

/// What a write of the attempt does to the run. One that was visible is
/// repeated once.
pub open spec fn after_persist(v: RunView, reply: Option<(Seq<char>, bool)>) -> RunView {
    match (v.step, reply) {
        (Step::PersistStatus(o), None) => v.status_kept(o),
        (Step::PersistStatus(o), Some((m, true))) => RunView {
            step: Step::RepairStatus(o),
            warning: m,
            ..v
        },
        (Step::PersistStatus(o), Some((m, false))) => v.not_kept(
            o,
            status_failure(o),
            uncommitted(m),
        ),
        (Step::RepairStatus(o), None) => v.status_kept(o),
        (Step::RepairStatus(o), Some((m, _))) => v.not_kept(
            o,
            status_failure(o),
            twice(v.warning, m),
        ),
        (Step::PersistAck(o), None) => v.metered(o),
        (Step::PersistAck(o), Some((m, true))) => RunView {
            step: Step::RepairAck(o),
            warning: m,
            ..v
        },
        (Step::PersistAck(o), Some((m, false))) => v.not_kept(
            o,
            metering_failure(o),
            uncommitted(m),
        ),
        (Step::RepairAck(o), None) => v.metered(o),
        (Step::RepairAck(o), Some((m, _))) => v.not_kept(
            o,
            metering_failure(o),
            twice(v.warning, m),
        ),
        (Step::RepairClaim, None) => v.at(Step::Generate),
        (Step::RepairClaim, Some((m, true))) => RunView {
            step: Step::RepairClaimAgain,
            warning: m,
            ..v
        },
        (Step::RepairClaim, Some((m, false))) => v.failed(
            claim_in_doubt(v.attempt->0.session_id, v.claim_warning, uncommitted(m)),
        ),
        (Step::RepairClaimAgain, None) => v.at(Step::Generate),
        (Step::RepairClaimAgain, Some((m, _))) => v.failed(
            claim_in_doubt(v.attempt->0.session_id, v.claim_warning, twice(v.warning, m)),
        ),
        _ => v,
    }
}

/// The steps that write the attempt.
pub open spec fn persists(step: Step) -> bool {
    ||| step is PersistStatus
    ||| step is RepairStatus
    ||| step is PersistAck
    ||| step is RepairAck
    ||| step == Step::RepairClaim
    ||| step == Step::RepairClaimAgain
}

/// The deletion check at either end of a run.
pub open spec fn after_tombstone(v: RunView, reply: Result<bool, String>) -> RunView {
    match reply {
        Ok(true) => v.at(Step::Done),
        Ok(false) => if v.step == Step::FirstTombstone {
            v.at(Step::LoadState)
        } else {
            v.notes_next()
        },
        Err(e) => v.failed(about(v.session_id, " deletion state unavailable: "@, e@)),
    }
}

/// A pending attempt is explained, metered, and then cleared away or resumed;
/// without one the session's messages are read.
pub open spec fn after_attempt(v: RunView, reply: Result<Option<Attempt>, String>, path: Seq<char>) -> RunView {
    match reply {
        Err(e) => v.failed(about(v.session_id, " consolidation state BLOCKED: "@, e@)),
        Ok(None) => v.at(Step::Snapshot),
        Ok(Some(a)) => match load_error(a@, v.session_id, path) {
            Some(e) => v.failed(about(v.session_id, " consolidation state BLOCKED: "@, e)),
            None => {
                let origin = if v.already_checkpointed(a@) {
                    Origin::Completed
                } else {
                    Origin::Resumed
                };
                let explained = v.with(a@.explained());
                if a@.explained() != a@ {
                    explained.at(Step::PersistStatus(origin))
                } else {
                    explained.status_kept(origin)
                }
            },
        },
    }
}

pub open spec fn after_metered(v: RunView, reply: Result<Metering, String>) -> RunView {
    let origin = v.step->Meter_0;
    match reply {
        Err(e) => v.not_kept(origin, metering_failure(origin), e@),
        Ok(m) => {
            let a = v.attempt->0;
            RunView {
                step: Step::PersistAck(origin),
                attempt: Some(AttemptView { metering_ack: true, ..a }),
                diagnostics: v.diagnostics + metering_notes(
                    a.session_id,
                    views(m.durability_warnings@),
                    a.metering_warning,
                    opt_view(m.stop_message),
                ),
                ..v
            }
        },
    }
}

pub open spec fn after_snapshot(v: RunView, reply: Result<Snapshot, ReadFailure>, operation_id: Seq<char>) -> RunView {
    match reply {
        Err(ReadFailure::Denied) => v.at(Step::Done),
        Err(ReadFailure::Other(e)) => v.failed(about(v.session_id, " history unavailable: "@, e@)),
        Ok(s) => {
            let said = spoken(recent(s.messages@, TRANSCRIPT_MESSAGES as nat));
            if !v.state.eligible(s.meta.id@, s.cursor@, s.meta.updated_at, v.since) || said.len() < 2 {
                v.at(Step::Done)
            } else {
                RunView {
                    step: Step::Goal,
                    transcript: said,
                    attempt: Some(
                        fresh_attempt(
                            s.meta.id@,
                            s.meta.updated_at,
                            s.meta.message_revision,
                            s.meta.directory@,
                            s.cursor@,
                            operation_id,
                            None,
                        ),
                    ),
                    ..v
                }
            }
        },
    }
}

/// The time that a call may take under a budget; none where the goal has
/// stopped.
pub open spec fn call_time(budget: RuntimeBudget) -> Option<u64> {
    match budget {
        RuntimeBudget::Unbounded => Some(DISTILL_TIMEOUT),
        RuntimeBudget::WallRemaining(ms) => Some(
            if ms < DISTILL_TIMEOUT {
                ms
            } else {
                DISTILL_TIMEOUT
            },
        ),
        RuntimeBudget::Stop => None,
    }
}

pub open spec fn after_goal(v: RunView, reply: Result<Option<GoalFocus>, String>) -> RunView {
    let a = v.attempt->0;
    match reply {
        Err(e) => v.failed(about(a.session_id, " goal state unavailable: "@, e@)),
        Ok(None) => RunView { step: Step::Gone, timeout_ms: DISTILL_TIMEOUT, ..v },
        Ok(Some(goal)) => match call_time(goal.budget) {
            None => v.at(Step::Done),
            Some(ms) => RunView {
                step: Step::Gone,
                timeout_ms: ms,
                attempt: Some(AttemptView { goal_id: Some(goal.id@), ..a }),
                ..v
            },
        },
    }
}

pub open spec fn after_claim(v: RunView, reply: Option<(Seq<char>, bool)>) -> RunView {
    match reply {
        None => v.at(Step::Generate),
        Some((m, true)) => RunView { step: Step::RepairClaim, claim_warning: m, ..v },
        Some((m, false)) => v.failed(
            about(v.attempt->0.session_id, " consolidation claim failed: "@, m),
        ),
    }
}

/// The call's cost is noted in every case. A call that never started gives its
/// claim back; one that started and failed leaves the attempt blocked.
pub open spec fn after_generated(v: RunView, g: Generated) -> RunView {
    let a = AttemptView {
        usage: g.usage,
        unmetered_call: g.unmetered_call,
        metering_warning: opt_view(g.metering_warning),
        ..v.attempt->0
    };
    match g.result {
        Ok(notes) => v.with(a.with_notes(notes@.map_values(|n: NewNote| n@))).at(
            Step::PersistStatus(Origin::Generated),
        ),
        Err(e) => if g.request_started {
            RunView { failure: e@, ..v }.with(a.with_started_failure()).at(
                Step::PersistStatus(Origin::FailedCall),
            )
        } else {
            RunView { failure: e@, ..v }.with(a).at(Step::Remove(Removal::Unstarted))
        },
    }
}

pub open spec fn after_note(v: RunView, reply: Result<Option<String>, String>) -> RunView {
    let a = v.attempt->0;
    let description = a.notes->0[a.next_note as int].description;
    match reply {
        Ok(None) => RunView {
            step: Step::SaveCursor,
            written: (v.written + 1) as usize,
            attempt: Some(AttemptView { next_note: (a.next_note + 1) as usize, ..a }),
            ..v
        },
        Ok(Some(warning)) => RunView { written: (v.written + 1) as usize, ..v }.failed(
            about(
                v.session_id,
                " note checkpoint failed: "@,
                "note '"@ + description + "' is visible but durability is indeterminate: "@
                    + warning@,
            ),
        ),
        Err(e) => v.failed(
            about(
                v.session_id,
                " note checkpoint failed: "@,
                "persist note '"@ + description + "': "@ + e@,
            ),
        ),
    }
}

pub open spec fn after_cursor_saved(v: RunView, reply: Option<(Seq<char>, bool)>) -> RunView {
    match reply {
        None => v.notes_next(),
        Some((m, _)) => v.failed(
            about(v.session_id, " note checkpoint failed: "@, "persist note cursor: "@ + m),
        ),
    }
}

/// A session whose revision fell behind the attempt is not checkpointed.
pub open spec fn after_cursor_read(v: RunView, reply: Result<u64, ReadFailure>) -> RunView {
    let revision = v.attempt->0.message_revision->0;
    match reply {
        Err(ReadFailure::Denied) => v.at(Step::Done),
        Err(ReadFailure::Other(e)) => v.failed(
            about(v.session_id, " message cursor CAS failed: "@, e@),
        ),
        Ok(observed) => if observed < revision {
            v.failed(
                "session "@ + v.session_id + " revision regressed from attempt "@ + decimal(
                    revision as nat,
                ) + " to "@ + decimal(observed as nat) + "; consolidation is BLOCKED"@,
            )
        } else {
            v.at(Step::Checkpoint)
        },
    }
}

pub open spec fn after_checkpoint(v: RunView, reply: Result<bool, String>) -> RunView {
    match reply {
        Ok(true) => v.at(Step::Remove(Removal::Finished)),
        Ok(false) => v.at(Step::EnsureDurable(Removal::Finished)),
        Err(e) => v.failed(about(v.session_id, " watermark checkpoint failed: "@, e@)),
    }
}

pub open spec fn after_durable(v: RunView, reply: Result<(), String>) -> RunView {
    let why = v.step->EnsureDurable_0;
    match reply {
        Ok(_) => v.at(Step::Remove(why)),
        Err(e) => v.failed(
            about(
                v.session_id,
                if why == Removal::Completed {
                    " completed watermark durability repair failed: "@
                } else {
                    " newer watermark durability repair failed: "@
                },
                e@,
            ),
        ),
    }
}

/// The run ends here. A call that never started is told of last.
pub open spec fn after_removed(v: RunView, reply: Option<(Seq<char>, bool)>) -> RunView {
    let why = v.step->Remove_0;
    let id = if why == Removal::Unstarted {
        v.attempt->0.session_id
    } else {
        v.session_id
    };
    let told = match reply {
        None => v,
        Some((m, _)) => v.said(about(id, removal_failure(why), m)),
    };
    if why == Removal::Unstarted {
        told.failed(about(id, " distillation failed: "@, v.failure))
    } else {
        told.at(Step::Done)
    }
}

impl SessionRun {
    /// A run for a session whose lease was taken.
    pub fn start(session_id: &str, since: u64) -> (r: SessionRun)
        ensures
            r@.inv(),
            r@.step == Step::FirstTombstone,
            r@.session_id == session_id@,
            r@.since == since,
            r@.attempt is None,
            r@.written == 0,
            r@.diagnostics == Seq::<Seq<char>>::empty(),
    {
        let r = SessionRun {
            session_id: session_id.to_owned(),
            since,
            step: Step::FirstTombstone,
            state: State::new(),
            attempt: None,
            transcript: Vec::new(),
            timeout_ms: DISTILL_TIMEOUT,
            warning: String::new(),
            claim_warning: String::new(),
            failure: String::new(),
            written: 0,
            diagnostics: Vec::new(),
        };
        assert(r@.diagnostics =~= Seq::<Seq<char>>::empty());
        r
    }

    fn say(&mut self, text: String)
        ensures
            final(self)@ == old(self)@.said(text@),
    {
        let ghost before = self.diagnostics@;
        let ghost t = text@;
        self.diagnostics.push(text);
        assert(views(self.diagnostics@) =~= views(before).push(t));
    }

    fn end(&mut self, text: String)
        ensures
            final(self)@ == old(self)@.failed(text@),
    {
        self.say(text);
        self.step = Step::Done;
    }

    fn end_about(&mut self, what: &str, error: &str)
        ensures
            final(self)@ == old(self)@.failed(about(old(self)@.session_id, what@, error@)),
    {
        let text = cat4("session ", self.session_id.as_str(), what, error);
        self.end(text);
    }

    /// The session that the attempt names.
    fn attempt_id(&self) -> (r: String)
        requires
            self@.attempt is Some,
        ensures
            r@ == self@.attempt->0.session_id,
    {
        match &self.attempt {
            Some(a) => a.session_id.clone(),
            None => String::new(),
        }
    }

    fn end_about_attempt(&mut self, what: &str, error: &str)
        requires
            old(self)@.attempt is Some,
        ensures
            final(self)@ == old(self)@.failed(
                about(old(self)@.attempt->0.session_id, what@, error@),
            ),
    {
        let id = self.attempt_id();
        let text = cat4("session ", id.as_str(), what, error);
        self.end(text);
    }

    fn go_metered(&mut self, origin: Origin)
        requires
            old(self)@.attempt is Some,
        ensures
            final(self)@ == old(self)@.metered(origin),
    {
        match origin {
            Origin::Completed => {
                self.step = Step::EnsureDurable(Removal::Completed);
            },
            Origin::Resumed => {
                let blocked = match &self.attempt {
                    Some(a) => a.is_blocked(),
                    None => false,
                };
                if blocked {
                    let text = cat3(
                        "session ",
                        self.session_id.as_str(),
                        " consolidation BLOCKED: a Provider request may have started before its result was recorded",
                    );
                    self.end(text);
                } else {
                    self.step = Step::LateTombstone;
                }
            },
            Origin::FailedCall => {
                let failure = self.failure.clone();
                self.end_about_attempt(" distillation failed: ", failure.as_str());
            },
            Origin::Generated => {
                self.step = Step::LateTombstone;
            },
        }
    }

    fn go_status_kept(&mut self, origin: Origin)
        requires
            old(self)@.attempt is Some,
        ensures
            final(self)@ == old(self)@.status_kept(origin),
    {
        let acknowledged = match &self.attempt {
            Some(a) => a.metering_ack,
            None => false,
        };
        if acknowledged {
            self.go_metered(origin);
        } else {
            self.step = Step::Meter(origin);
        }
    }

    fn go_not_kept(&mut self, origin: Origin, what: &str, error: &str)
        requires
            old(self)@.attempt is Some,
        ensures
            final(self)@ == old(self)@.not_kept(origin, what@, error@),
    {
        let own = match origin {
            Origin::Completed => true,
            Origin::Resumed => true,
            Origin::FailedCall => false,
            Origin::Generated => false,
        };
        let id = if own {
            self.session_id.clone()
        } else {
            self.attempt_id()
        };
        let text = cat4("session ", id.as_str(), what, error);
        self.say(text);
        if origin == Origin::FailedCall {
            let failure = self.failure.clone();
            let last = cat4("session ", id.as_str(), " distillation failed: ", failure.as_str());
            self.end(last);
        } else {
            self.step = Step::Done;
        }
    }

    fn go_notes_next(&mut self)
        requires
            old(self)@.attempt is Some,
            old(self)@.attempt->0.notes is Some,
        ensures
            final(self)@ == old(self)@.notes_next(),
    {
        let next: Step = match &self.attempt {
            Some(a) => {
                let open = match &a.notes {
                    Some(notes) => a.next_note < notes.len(),
                    None => false,
                };
                if open {
                    Step::AddNote
                } else if a.message_revision.is_some() && a.message_cursor.is_some() {
                    Step::ReadCursor
                } else {
                    Step::Remove(Removal::Legacy)
                }
            },
            None => Step::Done,
        };
        self.step = next;
    }

    pub fn on_tombstone(&mut self, reply: Result<bool, String>)
        requires
            old(self)@.inv(),
            old(self)@.step == Step::FirstTombstone || old(self)@.step == Step::LateTombstone,
        ensures
            final(self)@ == after_tombstone(old(self)@, reply),
            final(self)@.inv(),
            follows(old(self)@.step, final(self)@.step),
    {
        match reply {
            Ok(gone) => {
                if gone {
                    self.step = Step::Done;
                } else if self.step == Step::FirstTombstone {
                    self.step = Step::LoadState;
                } else {
                    self.go_notes_next();
                }
            },
            Err(e) => {
                self.end_about(" deletion state unavailable: ", e.as_str());
            },
        }
    }

    pub fn on_state(&mut self, reply: Result<State, String>)
        requires
            old(self)@.inv(),
            old(self)@.step == Step::LoadState,
        ensures
            final(self)@ == (match reply {
                Ok(state) => RunView { step: Step::LoadAttempt, state: state@, ..old(self)@ },
                Err(e) => old(self)@.failed(e@),
            }),
            final(self)@.inv(),
            follows(old(self)@.step, final(self)@.step),
    {
        match reply {
            Ok(state) => {
                self.state = state;
                self.step = Step::LoadAttempt;
            },
            Err(e) => {
                self.end(e);
            },
        }
    }

    fn already_checkpointed(&self, a: &Attempt) -> (r: bool)
        ensures
            r == self@.already_checkpointed(a@),
    {
        match &a.message_cursor {
            Some(cursor) => self.state.cursor_is(self.session_id.as_str(), cursor.as_str()),
            None => match a.message_revision {
                Some(revision) => revision <= self.state.revision(self.session_id.as_str()),
                None => a.updated_at <= self.state.distilled_at(self.session_id.as_str()),
            },
        }
    }

    pub fn on_attempt(&mut self, reply: Result<Option<Attempt>, String>, path: &str)
        requires
            old(self)@.inv(),
            old(self)@.step == Step::LoadAttempt,
        ensures
            final(self)@ == after_attempt(old(self)@, reply, path@),
            final(self)@.inv(),
            follows(old(self)@.step, final(self)@.step),
            reply matches Ok(Some(_)) ==> past_the_call(final(self)@.step),
    {
        match reply {
            Err(e) => {
                self.end_about(" consolidation state BLOCKED: ", e.as_str());
            },
            Ok(None) => {
                self.step = Step::Snapshot;
            },
            Ok(Some(found)) => match check_loaded(found, self.session_id.as_str(), path) {
                Err(e) => {
                    self.end_about(" consolidation state BLOCKED: ", e.as_str());
                },
                Ok(found) => {
                    let mut a = found;
                    let origin = if self.already_checkpointed(&a) {
                        Origin::Completed
                    } else {
                        Origin::Resumed
                    };
                    let changed = a.ensure_explainable_status();
                    self.attempt = Some(a);
                    if changed {
                        self.step = Step::PersistStatus(origin);
                    } else {
                        self.go_status_kept(origin);
                    }
                },
            },
        }
    }

    /// For a write of the attempt as it stands.
    pub fn on_persisted(&mut self, reply: Result<(), PersistFailure>)
        requires
            old(self)@.inv(),
            persists(old(self)@.step),
        ensures
            final(self)@ == after_persist(old(self)@, outcome(reply)),
            final(self)@.inv(),
            follows(old(self)@.step, final(self)@.step),
    {
        match self.step {
            Step::PersistStatus(o) => match reply {
                Ok(_) => self.go_status_kept(o),
                Err(f) => {
                    if f.committed {
                        self.warning = f.message;
                        self.step = Step::RepairStatus(o);
                    } else {
                        let error = cat2("attempt was not committed: ", f.message.as_str());
                        let what = crate::knowledge::consolidate::pass::status_failure_text(o);
                        self.go_not_kept(o, what, error.as_str());
                    }
                },
            },
            Step::RepairStatus(o) => match reply {
                Ok(_) => self.go_status_kept(o),
                Err(f) => {
                    let error = self.twice_text(f.message.as_str());
                    let what = crate::knowledge::consolidate::pass::status_failure_text(o);
                    self.go_not_kept(o, what, error.as_str());
                },
            },
            Step::PersistAck(o) => match reply {
                Ok(_) => self.go_metered(o),
                Err(f) => {
                    if f.committed {
                        self.warning = f.message;
                        self.step = Step::RepairAck(o);
                    } else {
                        let error = cat2("attempt was not committed: ", f.message.as_str());
                        let what = crate::knowledge::consolidate::pass::metering_failure_text(o);
                        self.go_not_kept(o, what, error.as_str());
                    }
                },
            },
            Step::RepairAck(o) => match reply {
                Ok(_) => self.go_metered(o),
                Err(f) => {
                    let error = self.twice_text(f.message.as_str());
                    let what = crate::knowledge::consolidate::pass::metering_failure_text(o);
                    self.go_not_kept(o, what, error.as_str());
                },
            },
            Step::RepairClaim => match reply {
                Ok(_) => {
                    self.step = Step::Generate;
                },
                Err(f) => {
                    if f.committed {
                        self.warning = f.message;
                        self.step = Step::RepairClaimAgain;
                    } else {
                        let error = cat2("attempt was not committed: ", f.message.as_str());
                        self.end_in_doubt(error.as_str());
                    }
                },
            },
            Step::RepairClaimAgain => match reply {
                Ok(_) => {
                    self.step = Step::Generate;
                },
                Err(f) => {
                    let error = self.twice_text(f.message.as_str());
                    self.end_in_doubt(error.as_str());
                },
            },
            _ => {},
        }
    }

    fn twice_text(&self, repair: &str) -> (r: String)
        ensures
            r@ == twice(self@.warning, repair@),
    {
        cat4(
            "attempt was visible but durability repair failed: ",
            self.warning.as_str(),
            "; ",
            repair,
        )
    }

    fn end_in_doubt(&mut self, repair: &str)
        requires
            old(self)@.attempt is Some,
        ensures
            final(self)@ == old(self)@.failed(
                claim_in_doubt(
                    old(self)@.attempt->0.session_id,
                    old(self)@.claim_warning,
                    repair@,
                ),
            ),
    {
        let id = self.attempt_id();
        let text = crate::text::cat6(
            "session ",
            id.as_str(),
            " consolidation claim durability is indeterminate: ",
            self.claim_warning.as_str(),
            "; ",
            repair,
        );
        self.end(text);
    }

    /// For the charge of the attempt, with `metering_request`'s arguments.
    pub fn on_metered(&mut self, reply: Result<Metering, String>)
        requires
            old(self)@.inv(),
            old(self)@.step is Meter,
        ensures
            final(self)@ == after_metered(old(self)@, reply),
            final(self)@.inv(),
            follows(old(self)@.step, final(self)@.step),
    {
        let origin = match self.step {
            Step::Meter(o) => o,
            _ => Origin::Completed,
        };
        match reply {
            Err(e) => {
                let what = crate::knowledge::consolidate::pass::metering_failure_text(origin);
                self.go_not_kept(origin, what, e.as_str());
            },
            Ok(m) => {
                let id = self.attempt_id();
                let ghost before = self@;
                let ghost repaired = views(m.durability_warnings@).map_values(
                    |w: Seq<char>| about(id@, " metering durability repaired: "@, w),
                );
                let mut i: usize = 0;
                while i < m.durability_warnings.len()
                    invariant
                        i <= m.durability_warnings@.len(),
                        id@ == before.attempt->0.session_id,
                        repaired == views(m.durability_warnings@).map_values(
                            |w: Seq<char>| about(id@, " metering durability repaired: "@, w),
                        ),
                        self@ == (RunView {
                            diagnostics: before.diagnostics + repaired.take(i as int),
                            ..before
                        }),
                    decreases m.durability_warnings@.len() - i,
                {
                    let text = cat4(
                        "session ",
                        id.as_str(),
                        " metering durability repaired: ",
                        m.durability_warnings[i].as_str(),
                    );
                    self.say(text);
                    i = i + 1;
                    assert(repaired.take(i as int) =~= repaired.take(i - 1).push(repaired[i - 1]));
                    assert(self@.diagnostics =~= before.diagnostics + repaired.take(i as int));
                }
                assert(repaired.take(i as int) =~= repaired);
                let degraded = match &self.attempt {
                    Some(a) => crate::text::opt_clone(&a.metering_warning),
                    None => None,
                };
                if let Some(w) = degraded {
                    let text = cat4(
                        "session ",
                        id.as_str(),
                        " Provider metering degraded: ",
                        w.as_str(),
                    );
                    self.say(text);
                }
                if let Some(message) = m.stop_message {
                    let text = cat4(
                        "session ",
                        id.as_str(),
                        " goal stopped after consolidation charge: ",
                        message.as_str(),
                    );
                    self.say(text);
                }
                assert(self@.diagnostics =~= before.diagnostics + metering_notes(
                    id@,
                    views(m.durability_warnings@),
                    before.attempt->0.metering_warning,
                    opt_view(m.stop_message),
                ));
                if let Some(mut a) = self.attempt.take() {
                    a.metering_ack = true;
                    self.attempt = Some(a);
                }
                self.step = Step::PersistAck(origin);
            },
        }
    }

    pub fn on_snapshot(&mut self, reply: Result<Snapshot, ReadFailure>, operation_id: String)
        requires
            old(self)@.inv(),
            old(self)@.step == Step::Snapshot,
        ensures
            final(self)@ == after_snapshot(old(self)@, reply, operation_id@),
            final(self)@.inv(),
            follows(old(self)@.step, final(self)@.step),
    {
        match reply {
            Err(ReadFailure::Denied) => {
                self.step = Step::Done;
            },
            Err(ReadFailure::Other(e)) => {
                self.end_about(" history unavailable: ", e.as_str());
            },
            Ok(s) => {
                if !self.state.snapshot_is_eligible(
                    s.meta.id.as_str(),
                    s.cursor.as_str(),
                    s.meta.updated_at,
                    self.since,
                ) {
                    self.step = Step::Done;
                    return;
                }
                match prepare_new_attempt(&s.meta, &s.messages, s.cursor, operation_id) {
                    None => {
                        self.step = Step::Done;
                    },
                    Some(prepared) => {
                        self.attempt = Some(prepared.attempt);
                        self.transcript = prepared.transcript;
                        self.step = Step::Goal;
                    },
                }
            },
        }
    }

    pub fn on_goal(&mut self, reply: Result<Option<GoalFocus>, String>)
        requires
            old(self)@.inv(),
            old(self)@.step == Step::Goal,
        ensures
            final(self)@ == after_goal(old(self)@, reply),
            final(self)@.inv(),
            follows(old(self)@.step, final(self)@.step),
    {
        match reply {
            Err(e) => {
                self.end_about_attempt(" goal state unavailable: ", e.as_str());
            },
            Ok(None) => {
                self.timeout_ms = DISTILL_TIMEOUT;
                self.step = Step::Gone;
            },
            Ok(Some(goal)) => {
                let time: Option<u64> = match goal.budget {
                    RuntimeBudget::Unbounded => Some(DISTILL_TIMEOUT),
                    RuntimeBudget::WallRemaining(ms) => Some(
                        if ms < DISTILL_TIMEOUT {
                            ms
                        } else {
                            DISTILL_TIMEOUT
                        },
                    ),
                    RuntimeBudget::Stop => None,
                };
                match time {
                    None => {
                        self.step = Step::Done;
                    },
                    Some(ms) => {
                        self.timeout_ms = ms;
                        if let Some(mut a) = self.attempt.take() {
                            a.goal_id = Some(goal.id);
                            self.attempt = Some(a);
                        }
                        self.step = Step::Gone;
                    },
                }
            },
        }
    }

    /// For the deletion check before the claim; a check that failed counts as
    /// deleted.
    pub fn on_gone(&mut self, reply: Result<bool, String>)
        requires
            old(self)@.inv(),
            old(self)@.step == Step::Gone,
        ensures
            final(self)@ == old(self)@.at(
                if reply == Ok::<bool, String>(false) {
                    Step::Route
                } else {
                    Step::Done
                },
            ),
            final(self)@.inv(),
            follows(old(self)@.step, final(self)@.step),
    {
        let gone = match reply {
            Ok(gone) => gone,
            Err(_) => true,
        };
        if gone {
            self.step = Step::Done;
        } else {
            self.step = Step::Route;
        }
    }

    /// For the choice of a model.
    pub fn on_routed(&mut self, reply: Result<(), String>)
        requires
            old(self)@.inv(),
            old(self)@.step == Step::Route,
        ensures
            final(self)@ == (match reply {
                Ok(_) => old(self)@.at(Step::Claim),
                Err(e) => old(self)@.failed(
                    about(
                        old(self)@.attempt->0.session_id,
                        " workspace model route unavailable: "@,
                        e@,
                    ),
                ),
            }),
            final(self)@.inv(),
            follows(old(self)@.step, final(self)@.step),
    {
        match reply {
            Ok(_) => {
                self.step = Step::Claim;
            },
            Err(e) => {
                self.end_about_attempt(" workspace model route unavailable: ", e.as_str());
            },
        }
    }

    /// For the exclusive first write of the attempt.
    pub fn on_claimed(&mut self, reply: Result<(), PersistFailure>)
        requires
            old(self)@.inv(),
            old(self)@.step == Step::Claim,
        ensures
            final(self)@ == after_claim(old(self)@, outcome(reply)),
            final(self)@.inv(),
            follows(old(self)@.step, final(self)@.step),
    {
        match reply {
            Ok(_) => {
                self.step = Step::Generate;
            },
            Err(f) => {
                if f.committed {
                    self.claim_warning = f.message;
                    self.step = Step::RepairClaim;
                } else {
                    self.end_about_attempt(" consolidation claim failed: ", f.message.as_str());
                }
            },
        }
    }

    /// For the provider call on `transcript` within `timeout_ms`.
    pub fn on_generated(&mut self, reply: Generated)
        requires
            old(self)@.inv(),
            old(self)@.step == Step::Generate,
        ensures
            final(self)@ == after_generated(old(self)@, reply),
            final(self)@.attempt matches Some(a) && charge_of(a) == (
                reply.usage,
                reply.usage is None || reply.unmetered_call,
            ),
            final(self)@.inv(),
            follows(old(self)@.step, final(self)@.step),
    {
        if let Some(mut a) = self.attempt.take() {
            a.usage = reply.usage;
            a.unmetered_call = reply.unmetered_call;
            a.metering_warning = reply.metering_warning;
            match reply.result {
                Ok(notes) => {
                    a.record_notes(notes);
                    self.step = Step::PersistStatus(Origin::Generated);
                },
                Err(e) => {
                    self.failure = e;
                    if reply.request_started {
                        a.record_started_failure();
                        self.step = Step::PersistStatus(Origin::FailedCall);
                    } else {
                        self.step = Step::Remove(Removal::Unstarted);
                    }
                },
            }
            self.attempt = Some(a);
        }
    }

    /// For the note that the cursor points at: written, written with a warning
    /// about its durability, or not written.
    pub fn on_note(&mut self, reply: Result<Option<String>, String>)
        requires
            old(self)@.inv(),
            old(self)@.step == Step::AddNote,
        ensures
            final(self)@ == after_note(old(self)@, reply),
            final(self)@.inv(),
            follows(old(self)@.step, final(self)@.step),
    {
        let mut len: usize = 0;
        let description = match &self.attempt {
            Some(a) => match &a.notes {
                Some(notes) => {
                    len = notes.len();
                    notes[a.next_note].description.clone()
                },
                None => String::new(),
            },
            None => String::new(),
        };
        assert(self@.attempt->0.next_note < len);
        match reply {
            Ok(None) => {
                self.written = self.written + 1;
                if let Some(mut a) = self.attempt.take() {
                    a.next_note = a.next_note + 1;
                    self.attempt = Some(a);
                }
                self.step = Step::SaveCursor;
            },
            Ok(Some(warning)) => {
                self.written = self.written + 1;
                let error = cat4(
                    "note '",
                    description.as_str(),
                    "' is visible but durability is indeterminate: ",
                    warning.as_str(),
                );
                self.end_about(" note checkpoint failed: ", error.as_str());
            },
            Err(e) => {
                let error = cat4("persist note '", description.as_str(), "': ", e.as_str());
                self.end_about(" note checkpoint failed: ", error.as_str());
            },
        }
    }

    /// For the write of the attempt with its cursor moved on.
    pub fn on_cursor_saved(&mut self, reply: Result<(), PersistFailure>)
        requires
            old(self)@.inv(),
            old(self)@.step == Step::SaveCursor,
        ensures
            final(self)@ == after_cursor_saved(old(self)@, outcome(reply)),
            final(self)@.inv(),
            follows(old(self)@.step, final(self)@.step),
    {
        match reply {
            Ok(_) => self.go_notes_next(),
            Err(f) => {
                let error = cat2("persist note cursor: ", f.message.as_str());
                self.end_about(" note checkpoint failed: ", error.as_str());
            },
        }
    }

    /// For the session's revision as it stands now.
    pub fn on_cursor_read(&mut self, reply: Result<u64, ReadFailure>)
        requires
            old(self)@.inv(),
            old(self)@.step == Step::ReadCursor,
        ensures
            final(self)@ == after_cursor_read(old(self)@, reply),
            final(self)@.inv(),
            follows(old(self)@.step, final(self)@.step),
    {
        let revision: u64 = match &self.attempt {
            Some(a) => match a.message_revision {
                Some(revision) => revision,
                None => 0,
            },
            None => 0,
        };
        match reply {
            Err(ReadFailure::Denied) => {
                self.step = Step::Done;
            },
            Err(ReadFailure::Other(e)) => {
                self.end_about(" message cursor CAS failed: ", e.as_str());
            },
            Ok(observed) => {
                if observed < revision {
                    let was = decimal_of(revision);
                    let is = decimal_of(observed);
                    let text = cat7(
                        "session ",
                        self.session_id.as_str(),
                        " revision regressed from attempt ",
                        was.as_str(),
                        " to ",
                        is.as_str(),
                        "; consolidation is BLOCKED",
                    );
                    self.end(text);
                } else {
                    self.step = Step::Checkpoint;
                }
            },
        }
    }

    /// For the commit of the attempt's `checkpoint_target`.
    pub fn on_checkpointed(&mut self, reply: Result<bool, String>)
        requires
            old(self)@.inv(),
            old(self)@.step == Step::Checkpoint,
        ensures
            final(self)@ == after_checkpoint(old(self)@, reply),
            final(self)@.inv(),
            follows(old(self)@.step, final(self)@.step),
    {
        match reply {
            Ok(committed) => {
                if committed {
                    self.step = Step::Remove(Removal::Finished);
                } else {
                    self.step = Step::EnsureDurable(Removal::Finished);
                }
            },
            Err(e) => {
                self.end_about(" watermark checkpoint failed: ", e.as_str());
            },
        }
    }

    /// For the rewrite of a state that is visible but perhaps not durable.
    pub fn on_durable(&mut self, reply: Result<(), String>)
        requires
            old(self)@.inv(),
            old(self)@.step is EnsureDurable,
        ensures
            final(self)@ == after_durable(old(self)@, reply),
            final(self)@.inv(),
            follows(old(self)@.step, final(self)@.step),
    {
        let why = match self.step {
            Step::EnsureDurable(why) => why,
            _ => Removal::Completed,
        };
        match reply {
            Ok(_) => {
                self.step = Step::Remove(why);
            },
            Err(e) => {
                if why == Removal::Completed {
                    self.end_about(
                        " completed watermark durability repair failed: ",
                        e.as_str(),
                    );
                } else {
                    self.end_about(" newer watermark durability repair failed: ", e.as_str());
                }
            },
        }
    }

    pub fn on_removed(&mut self, reply: Result<(), PersistFailure>)
        requires
            old(self)@.inv(),
            old(self)@.step is Remove,
        ensures
            final(self)@ == after_removed(old(self)@, outcome(reply)),
            final(self)@.inv(),
            follows(old(self)@.step, final(self)@.step),
    {
        let why = match self.step {
            Step::Remove(why) => why,
            _ => Removal::Completed,
        };
        let id = if why == Removal::Unstarted {
            self.attempt_id()
        } else {
            self.session_id.clone()
        };
        if let Err(f) = reply {
            let what = crate::knowledge::consolidate::pass::removal_failure_text(why);
            let text = cat4("session ", id.as_str(), what, f.message.as_str());
            self.say(text);
        }
        if why == Removal::Unstarted {
            let failure = self.failure.clone();
            let text = cat4("session ", id.as_str(), " distillation failed: ", failure.as_str());
            self.end(text);
        } else {
            self.step = Step::Done;
        }
    }
}

/// What is charged for an attempt: the tokens that were reported, and whether
/// the call counts as one of unknown cost.
pub struct MeteringRequest {
    pub measured: Option<TokenUsage>,
    pub unmetered: bool,
}

/// What is charged for an attempt: the tokens, and whether the cost is unknown.
pub open spec fn charge_of(attempt: AttemptView) -> (Option<TokenUsage>, bool) {
    (attempt.usage, attempt.usage_unknown())
}

/// The charge for an attempt whose metering is not yet acknowledged.
pub fn metering_request(attempt: &Attempt) -> (r: MeteringRequest)
    ensures
        (r.measured, r.unmetered) == charge_of(attempt@),
        r.measured == attempt@.usage,
        r.unmetered == attempt@.usage_unknown(),
{
    MeteringRequest { measured: attempt.usage, unmetered: attempt.usage_unknown() }
}

/// A sequence of steps that a run may take.
pub open spec fn is_run(steps: Seq<Step>) -> bool {
    forall|i: int| #![trigger steps[i]] 0 <= i && i + 1 < steps.len() ==> follows(steps[i], steps[i + 1])
}

/// Once a run is past the provider call, or has found an attempt on disk, it
/// never calls the provider: a call that may have been charged is not repeated.
pub proof fn law_no_call_past_the_call(steps: Seq<Step>, i: int, j: int)
    requires
        is_run(steps),
        0 <= i <= j < steps.len(),
        past_the_call(steps[i]),
    ensures
        past_the_call(steps[j]),
        steps[j] != Step::Generate,
        steps[j] != Step::Claim,
    decreases j - i,
{
    if i < j {
        law_no_call_past_the_call(steps, i, j - 1);
        assert(follows(steps[j - 1], steps[j]));
    }
}

/// The provider is called at most once in a run.
pub proof fn law_one_call_per_run(steps: Seq<Step>, i: int, j: int)
    requires
        is_run(steps),
        0 <= i < j < steps.len(),
        steps[i] == Step::Generate,
    ensures
        steps[j] != Step::Generate,
{
    assert(follows(steps[i], steps[i + 1]));
    law_no_call_past_the_call(steps, i + 1, j);
}

/// The provider is called only right after the claim of the attempt was
/// written.
pub proof fn law_call_follows_a_claim(a: Step)
    requires
        follows(a, Step::Generate),
    ensures
        a == Step::Claim || a == Step::RepairClaim || a == Step::RepairClaimAgain,
{
}

/// The attempt of a finished run is removed only after its checkpoint, and one
/// that was found checkpointed only after that checkpoint was made durable.
pub proof fn law_removal_follows_the_checkpoint(a: Step)
    ensures
        follows(a, Step::Remove(Removal::Finished)) ==> a == Step::Checkpoint || a
            == Step::EnsureDurable(Removal::Finished),
        follows(a, Step::EnsureDurable(Removal::Finished)) ==> a == Step::Checkpoint,
        follows(a, Step::Remove(Removal::Completed)) ==> a == Step::EnsureDurable(Removal::Completed),
{
}

/// No note is written, no checkpoint committed and no attempt removed, except a
/// claim whose call never started, before the charge for it was acknowledged.
pub proof fn law_metered_first(run: RunView)
    requires
        run.inv(),
    ensures
        run.step == Step::AddNote || run.step == Step::Checkpoint || (run.step is Remove && run.step
            != Step::Remove(Removal::Unstarted)) ==> run.attempt is Some
            && run.attempt->0.metering_ack,
{
}

/// A checkpoint is committed only once every note of the attempt is written.
pub proof fn law_notes_before_checkpoint(run: RunView)
    requires
        run.inv(),
        run.step == Step::Checkpoint,
    ensures
        run.attempt->0.notes is Some,
        run.attempt->0.next_note == run.attempt->0.notes->0.len(),
        run.attempt->0.checkpoint_target() is Some,
{
}

/// The provider call of this run is behind, or there will be none.
pub open spec fn past_the_call(step: Step) -> bool {
    match step {
        Step::FirstTombstone | Step::LoadState | Step::LoadAttempt | Step::Snapshot | Step::Goal
        | Step::Gone | Step::Route | Step::Claim | Step::RepairClaim | Step::RepairClaimAgain
        | Step::Generate => false,
        _ => true,
    }
}

/// Two states of the record of one piece of work: the same session and messages,
/// the same operation, and the same place to work in.
pub open spec fn same_work(a: AttemptView, b: AttemptView) -> bool {
    &&& a.session_id == b.session_id
    &&& a.updated_at == b.updated_at
    &&& a.message_revision == b.message_revision
    &&& a.message_cursor == b.message_cursor
    &&& a.workdir == b.workdir
    &&& a.operation_id == b.operation_id
    &&& a.goal_id == b.goal_id
}

/// The same work, at the same cost, with the same result.
pub open spec fn same_result(a: AttemptView, b: AttemptView) -> bool {
    &&& same_work(a, b)
    &&& a.usage == b.usage
    &&& a.unmetered_call == b.unmetered_call
    &&& a.metering_warning == b.metering_warning
    &&& a.notes == b.notes
}

/// The run ends here, and says one thing more: a text on the session that ends
/// with the error.
pub open spec fn ends_with_error(v: RunView, next: RunView, id: Seq<char>, error: Seq<char>) -> bool {
    &&& next.step == Step::Done
    &&& next.diagnostics.len() == v.diagnostics.len() + 1
    &&& next.diagnostics.drop_last() == v.diagnostics
    &&& starts(next.diagnostics.last(), "session "@ + id)
    &&& ends(next.diagnostics.last(), error)
    &&& next.attempt == v.attempt
    &&& next.written == v.written
}

proof fn lemma_about(v: RunView, id: Seq<char>, what: Seq<char>, error: Seq<char>)
    ensures
        ends_with_error(v, v.failed(about(id, what, error)), id, error),
{
    let text = about(id, what, error);
    let head = "session "@ + id;
    assert(text.subrange(0, head.len() as int) =~= head);
    assert(text.subrange(text.len() - error.len(), text.len() as int) =~= error);
    assert(v.diagnostics.push(text).drop_last() =~= v.diagnostics);
}

/// From the provider's reply to the charge: the tokens that the call reported are
/// the ones that are charged, and its cost counts as unknown only where none were
/// reported or the reply says so. That holds of the record that is written, of
/// the one that is written again, and of the one that is charged for. A call that
/// never began is not charged; its claim is taken back.
pub proof fn law_call_is_charged_as_reported(v: RunView, g: Generated, warning: Seq<char>)
    requires
        v.inv(),
        v.step == Step::Generate,
    ensures
        ({
            let written = after_generated(v, g);
            let again = after_persist(written, Some((warning, true)));
            let begun = g.result is Ok || g.request_started;
            &&& written.attempt matches Some(a) && charge_of(a).0 == g.usage && charge_of(a).1 == (
            g.usage is None || g.unmetered_call) && a.metering_warning == opt_view(
                g.metering_warning,
            ) && !a.metering_ack && same_work(a, v.attempt->0)
            &&& begun ==> {
                &&& persists(written.step)
                &&& after_persist(written, None).step is Meter
                &&& after_persist(written, None).attempt == written.attempt
                &&& persists(again.step)
                &&& again.attempt == written.attempt
                &&& after_persist(again, None).step is Meter
                &&& after_persist(again, None).attempt == written.attempt
            }
            &&& !begun ==> written.step == Step::Remove(Removal::Unstarted)
        }),
{
}

/// The notes of the reply are the notes of the record, one for one and in their
/// order, and none of them is written yet. A reply without notes leaves the record
/// blocked, and says why.
pub proof fn law_notes_are_those_of_the_reply(v: RunView, g: Generated)
    requires
        v.inv(),
        v.step == Step::Generate,
    ensures
        ({
            let next = after_generated(v, g);
            let a = next.attempt->0;
            &&& next.attempt is Some
            &&& a.next_note == 0
            &&& match g.result {
                Ok(notes) => {
                    &&& a.notes is Some
                    &&& a.notes->0.len() == notes@.len()
                    &&& forall|i: int|
                        0 <= i < notes@.len() ==> (#[trigger] a.notes->0[i]) == notes@[i]@
                    &&& !a.blocked()
                    &&& next.failure == v.failure
                },
                Err(e) => {
                    &&& a.notes is None
                    &&& a.blocked()
                    &&& g.request_started ==> a.reason is Some
                    &&& next.failure == e@
                },
            }
            &&& next.written == 0
            &&& next.diagnostics == v.diagnostics
            &&& next.transcript == v.transcript
        }),
{
}

/// Writing the record changes nothing in it, whether it is the claim, the result
/// or the acknowledgement.
pub proof fn law_writing_changes_no_record(v: RunView, reply: Option<(Seq<char>, bool)>)
    requires
        v.inv(),
        persists(v.step),
    ensures
        after_persist(v, reply).attempt == v.attempt,
        after_persist(v, reply).written == v.written,
        after_persist(v, reply).transcript == v.transcript,
        after_persist(v, reply).failure == v.failure,
        reply is Some && !(reply->0).1 ==> after_persist(v, reply).step == Step::Done,
        reply is Some ==> after_persist(v, reply).step == Step::Done || persists(
            after_persist(v, reply).step,
        ),
        v.step == Step::RepairClaimAgain || v.step is RepairStatus || v.step is RepairAck ==> (
        reply is Some ==> after_persist(v, reply).step == Step::Done),
        (v.step == Step::RepairClaim || v.step == Step::RepairClaimAgain) && reply is None
            ==> after_persist(v, reply).step == Step::Generate,
{
}

/// A charge that succeeded is acknowledged on the record of the same work and
/// result; one that failed is not, and ends the run.
pub proof fn law_charge_is_acknowledged_once(v: RunView, reply: Result<Metering, String>)
    requires
        v.inv(),
        v.step is Meter,
    ensures
        ({
            let next = after_metered(v, reply);
            &&& next.attempt is Some
            &&& same_result(next.attempt->0, v.attempt->0)
            &&& next.attempt->0.next_note == v.attempt->0.next_note
            &&& reply is Ok ==> {
                &&& next.attempt->0.metering_ack
                &&& next.step == Step::PersistAck(v.step->Meter_0)
            }
            &&& reply is Err ==> {
                &&& next.attempt == v.attempt
                &&& next.step == Step::Done
                &&& next.diagnostics.len() > v.diagnostics.len()
            }
            &&& next.diagnostics.take(v.diagnostics.len() as int) == v.diagnostics
            &&& reply matches Ok(m) ==> {
                &&& next.diagnostics.len() == v.diagnostics.len() + m.durability_warnings@.len() + (
                if v.attempt->0.metering_warning is Some {
                    1int
                } else {
                    0
                }) + (if m.stop_message is Some {
                    1int
                } else {
                    0
                })
                &&& forall|i: int|
                    0 <= i < m.durability_warnings@.len() ==> ends(
                        #[trigger] next.diagnostics[v.diagnostics.len() + i],
                        m.durability_warnings@[i]@,
                    )
                &&& m.stop_message matches Some(text) ==> ends(next.diagnostics.last(), text@)
            }
        }),
{
    let next = after_metered(v, reply);
    assert(next.diagnostics.take(v.diagnostics.len() as int) =~= v.diagnostics);
    if let Ok(m) = reply {
        let id = v.attempt->0.session_id;
        assert forall|i: int| 0 <= i < m.durability_warnings@.len() implies ends(
            #[trigger] next.diagnostics[v.diagnostics.len() + i],
            m.durability_warnings@[i]@,
        ) by {
            let w = m.durability_warnings@[i]@;
            let text = about(id, " metering durability repaired: "@, w);
            assert(views(m.durability_warnings@)[i] == w);
            assert(next.diagnostics[v.diagnostics.len() + i] == text);
            assert(text.subrange(text.len() - w.len(), text.len() as int) =~= w);
        }
        if let Some(message) = m.stop_message {
            let w = message@;
            let text = about(id, " goal stopped after consolidation charge: "@, w);
            assert(next.diagnostics.last() == text);
            assert(text.subrange(text.len() - w.len(), text.len() as int) =~= w);
        }
    }
}

/// Once the charge is acknowledged on disk, the run goes on to what the record is
/// there for: its notes where it has any, the removal where they were checkpointed
/// before, and nothing where a result is missing.
pub proof fn law_settled_record_goes_on(v: RunView)
    requires
        v.inv(),
        v.step is PersistAck || v.step is RepairAck,
    ensures
        ({
            let origin = if v.step is PersistAck {
                v.step->PersistAck_0
            } else {
                v.step->RepairAck_0
            };
            let next = after_persist(v, None);
            match origin {
                Origin::Completed => next.step == Step::EnsureDurable(Removal::Completed)
                    && next.diagnostics == v.diagnostics,
                Origin::Generated => next.step == Step::LateTombstone && next.diagnostics
                    == v.diagnostics,
                Origin::Resumed => if v.attempt->0.notes is Some {
                    next.step == Step::LateTombstone && next.diagnostics == v.diagnostics
                } else {
                    next.step == Step::Done && next.diagnostics.len() == v.diagnostics.len() + 1
                },
                Origin::FailedCall => ends_with_error(
                    v,
                    next,
                    v.attempt->0.session_id,
                    v.failure,
                ),
            }
        }),
{
    lemma_about(v, v.attempt->0.session_id, " distillation failed: "@, v.failure);
}

/// A record that was found goes on as it is, but for a status that its notes call
/// for. It is cleared away only where the watermark is its own, and read again
/// only where it belongs to the session.
pub proof fn law_found_record_is_taken_up(v: RunView, a: Attempt, path: Seq<char>)
    requires
        v.inv(),
        v.step == Step::LoadAttempt,
    ensures
        ({
            let next = after_attempt(v, Ok(Some(a)), path);
            let usable = a@.session_id == v.session_id && (a@.notes is Some ==> a@.next_note
                <= a@.notes->0.len());
            &&& !usable ==> next.step == Step::Done && next.attempt == v.attempt
                && next.diagnostics.len() == v.diagnostics.len() + 1
            &&& usable ==> {
                &&& next.attempt is Some
                &&& same_result(next.attempt->0, a@)
                &&& next.attempt->0.next_note == a@.next_note
                &&& next.attempt->0.metering_ack == a@.metering_ack
                &&& (next.attempt->0.reason is None) == (a@.notes is Some)
                &&& !a@.metering_ack ==> next.step is PersistStatus || next.step is Meter
                &&& (a@.message_cursor matches Some(cursor) ==> {
                    let own = v.state.cursor(v.session_id) == Some(cursor);
                    &&& next.step is PersistStatus ==> (next.step->PersistStatus_0
                        == Origin::Completed) == own
                    &&& next.step is Meter ==> (next.step->Meter_0 == Origin::Completed) == own
                    &&& next.step is EnsureDurable ==> own
                    &&& next.step == Step::LateTombstone ==> !own
                })
            }
        }),
        after_attempt(v, Ok(None), path) == v.at(Step::Snapshot),
{
}

/// A record that could not be read stops the run before any call.
pub proof fn law_unreadable_record_blocks(v: RunView, error: String, path: Seq<char>)
    ensures
        ends_with_error(v, after_attempt(v, Err(error), path), v.session_id, error@),
{
    lemma_about(v, v.session_id, " consolidation state BLOCKED: "@, error@);
}

/// The claim is on the session and the messages that were read, under a new
/// operation and without a result; the provider gets what was said. Nothing is
/// claimed for a session that is not eligible or says too little.
pub proof fn law_claim_is_on_what_was_read(v: RunView, s: Snapshot, operation_id: Seq<char>)
    requires
        v.inv(),
        v.step == Step::Snapshot,
    ensures
        ({
            let next = after_snapshot(v, Ok(s), operation_id);
            let said = spoken(recent(s.messages@, 20));
            &&& next.step == Step::Goal || next.step == Step::Done
            &&& next.step == Step::Goal <==> said.len() >= 2 && v.state.eligible(
                s.meta.id@,
                s.cursor@,
                s.meta.updated_at,
                v.since,
            )
            &&& next.step == Step::Done ==> next.attempt == v.attempt
            &&& next.diagnostics == v.diagnostics
            &&& next.step == Step::Goal ==> {
                &&& next.transcript == said
                &&& next.attempt is Some
                &&& next.attempt->0.session_id == s.meta.id@
                &&& next.attempt->0.updated_at == s.meta.updated_at
                &&& next.attempt->0.message_revision == Some(s.meta.message_revision)
                &&& next.attempt->0.message_cursor == Some(s.cursor@)
                &&& next.attempt->0.checkpoint_target() == Some((s.meta.message_revision, s.cursor@))
                &&& next.attempt->0.workdir == s.meta.directory@
                &&& next.attempt->0.operation_id == operation_id
                &&& next.attempt->0.goal_id is None
                &&& next.attempt->0.usage is None
                &&& !next.attempt->0.unmetered_call
                &&& !next.attempt->0.metering_ack
                &&& next.attempt->0.blocked()
                &&& next.attempt->0.reason is Some
            }
        }),
{
}

/// A session that is being deleted is left alone without a word; any other
/// failure to read it is told.
pub proof fn law_session_that_cannot_be_read(v: RunView, error: String, operation_id: Seq<char>)
    ensures
        after_snapshot(v, Err(ReadFailure::Denied), operation_id) == v.at(Step::Done),
        ends_with_error(
            v,
            after_snapshot(v, Err(ReadFailure::Other(error)), operation_id),
            v.session_id,
            error@,
        ),
        after_cursor_read(v, Err(ReadFailure::Denied)) == v.at(Step::Done),
        ends_with_error(
            v,
            after_cursor_read(v, Err(ReadFailure::Other(error))),
            v.session_id,
            error@,
        ),
{
    lemma_about(v, v.session_id, " history unavailable: "@, error@);
    lemma_about(v, v.session_id, " message cursor CAS failed: "@, error@);
}

/// A call takes no longer than a minute, nor longer than its goal has left, and
/// as long as both allow. A stopped goal gets none, and the goal that pays is
/// noted on the claim.
pub proof fn law_goal_bounds_the_call(v: RunView, goal: Option<GoalFocus>)
    requires
        v.inv(),
        v.step == Step::Goal,
    ensures
        ({
            let next = after_goal(v, Ok(goal));
            let a = next.attempt->0;
            &&& next.attempt is Some
            &&& a == (AttemptView { goal_id: a.goal_id, ..v.attempt->0 })
            &&& next.transcript == v.transcript
            &&& next.diagnostics == v.diagnostics
            &&& match goal {
                None => next.step == Step::Gone && next.timeout_ms == DISTILL_TIMEOUT && a.goal_id
                    == v.attempt->0.goal_id,
                Some(focus) => match focus.budget {
                    RuntimeBudget::Stop => next.step == Step::Done,
                    RuntimeBudget::Unbounded => next.step == Step::Gone && next.timeout_ms
                        == DISTILL_TIMEOUT && a.goal_id == Some(focus.id@),
                    RuntimeBudget::WallRemaining(left) => next.step == Step::Gone
                        && next.timeout_ms <= left && next.timeout_ms <= DISTILL_TIMEOUT && (
                    next.timeout_ms == left || next.timeout_ms == DISTILL_TIMEOUT) && a.goal_id
                        == Some(focus.id@),
                },
            }
        }),
{
}

/// A goal that cannot be read, or a claim that was never written, stops the run
/// before the call.
pub proof fn law_no_call_without_goal_and_claim(v: RunView, error: String, message: Seq<char>)
    requires
        v.attempt is Some,
    ensures
        ends_with_error(v, after_goal(v, Err(error)), v.attempt->0.session_id, error@),
        ends_with_error(
            v,
            after_claim(v, Some((message, false))),
            v.attempt->0.session_id,
            message,
        ),
        after_claim(v, None) == v.at(Step::Generate),
        after_claim(v, Some((message, true))).step == Step::RepairClaim,
        after_claim(v, Some((message, true))).attempt == v.attempt,
{
    lemma_about(v, v.attempt->0.session_id, " goal state unavailable: "@, error@);
    lemma_about(v, v.attempt->0.session_id, " consolidation claim failed: "@, message);
}

/// A deleted session ends the run at either check: nothing is written, charged or
/// said. One that stands goes on.
pub proof fn law_deleted_session_is_left_alone(v: RunView, error: String)
    requires
        v.inv(),
        v.step == Step::FirstTombstone || v.step == Step::LateTombstone,
    ensures
        after_tombstone(v, Ok(true)) == v.at(Step::Done),
        ends_with_error(v, after_tombstone(v, Err(error)), v.session_id, error@),
        v.step == Step::FirstTombstone ==> after_tombstone(v, Ok(false)) == v.at(Step::LoadState),
        v.step == Step::LateTombstone ==> after_tombstone(v, Ok(false)).attempt == v.attempt
            && after_notes_step(after_tombstone(v, Ok(false))),
{
    lemma_about(v, v.session_id, " deletion state unavailable: "@, error@);
}

/// Where a run stands while its notes are written: at the next one, and only
/// behind the last one at the checkpoint, or at the removal where there is nothing
/// to checkpoint.
pub open spec fn after_notes_step(v: RunView) -> bool {
    let a = v.attempt->0;
    if a.next_note < a.notes->0.len() {
        v.step == Step::AddNote
    } else if a.message_revision is Some && a.message_cursor is Some {
        v.step == Step::ReadCursor
    } else {
        v.step == Step::Remove(Removal::Legacy)
    }
}

/// A note that was written is counted and passed, and no other; one that was not
/// stays the next, and the run ends with the error.
pub proof fn law_notes_are_written_in_turn(v: RunView, warning: String, error: String)
    requires
        v.inv(),
        v.step == Step::AddNote,
        v.attempt->0.notes->0.len() <= usize::MAX,
    ensures
        ({
            let kept = after_note(v, Ok(None));
            let doubtful = after_note(v, Ok(Some(warning)));
            let lost = after_note(v, Err(error));
            &&& kept.step == Step::SaveCursor
            &&& kept.written == v.written + 1
            &&& kept.attempt is Some
            &&& same_result(kept.attempt->0, v.attempt->0)
            &&& kept.attempt->0.next_note == v.attempt->0.next_note + 1
            &&& kept.attempt->0.metering_ack
            &&& kept.diagnostics == v.diagnostics
            &&& doubtful.step == Step::Done
            &&& doubtful.written == v.written + 1
            &&& doubtful.attempt == v.attempt
            &&& doubtful.diagnostics.len() == v.diagnostics.len() + 1
            &&& ends(doubtful.diagnostics.last(), warning@)
            &&& ends_with_error(v, lost, v.session_id, error@)
        }),
{
    let a = v.attempt->0;
    let description = a.notes->0[a.next_note as int].description;
    let first = "note '"@ + description + "' is visible but durability is indeterminate: "@
        + warning@;
    let text = about(v.session_id, " note checkpoint failed: "@, first);
    assert(text.subrange(text.len() - warning@.len(), text.len() as int) =~= warning@);
    let second = "persist note '"@ + description + "': "@ + error@;
    let told = about(v.session_id, " note checkpoint failed: "@, second);
    lemma_about(v, v.session_id, " note checkpoint failed: "@, second);
    assert(told.subrange(told.len() - error@.len(), told.len() as int) =~= error@);
}

/// The run goes on to the next note only once its place was kept, and a place
/// that was not kept ends it.
pub proof fn law_place_is_kept_between_notes(v: RunView, message: Seq<char>, visible: bool)
    requires
        v.inv(),
        v.step == Step::SaveCursor,
    ensures
        after_cursor_saved(v, None).attempt == v.attempt,
        after_cursor_saved(v, None).written == v.written,
        after_notes_step(after_cursor_saved(v, None)),
        ends_with_error(v, after_cursor_saved(v, Some((message, visible))), v.session_id, message),
{
    let told = "persist note cursor: "@ + message;
    let text = about(v.session_id, " note checkpoint failed: "@, told);
    lemma_about(v, v.session_id, " note checkpoint failed: "@, told);
    assert(text.subrange(text.len() - message.len(), text.len() as int) =~= message);
}

/// The checkpoint is committed only for a session that is at the record's
/// revision or past it, and the record goes only after that.
pub proof fn law_checkpoint_needs_the_revision(v: RunView, observed: u64, error: String)
    requires
        v.inv(),
    ensures
        v.step == Step::ReadCursor ==> {
            let next = after_cursor_read(v, Ok(observed));
            &&& next.attempt == v.attempt
            &&& next.step == Step::Checkpoint <==> observed >= v.attempt->0.message_revision->0
            &&& next.step == Step::Checkpoint || next.step == Step::Done
            &&& next.step == Step::Checkpoint ==> next.diagnostics == v.diagnostics
            &&& next.step == Step::Done ==> next.diagnostics.len() == v.diagnostics.len() + 1
        },
        v.step == Step::Checkpoint ==> {
            &&& after_checkpoint(v, Ok(true)) == v.at(Step::Remove(Removal::Finished))
            &&& after_checkpoint(v, Ok(false)) == v.at(Step::EnsureDurable(Removal::Finished))
            &&& ends_with_error(v, after_checkpoint(v, Err(error)), v.session_id, error@)
        },
        v.step is EnsureDurable ==> {
            &&& after_durable(v, Ok(())) == v.at(Step::Remove(v.step->EnsureDurable_0))
            &&& ends_with_error(v, after_durable(v, Err(error)), v.session_id, error@)
        },
{
    lemma_about(v, v.session_id, " watermark checkpoint failed: "@, error@);
    lemma_about(v, v.session_id, " completed watermark durability repair failed: "@, error@);
    lemma_about(v, v.session_id, " newer watermark durability repair failed: "@, error@);
}

/// A removal ends the run. One that failed is told, and so is the failure of the
/// call whose claim was taken back.
pub proof fn law_removal_ends_the_run(v: RunView, message: Seq<char>, visible: bool)
    requires
        v.inv(),
        v.step is Remove,
    ensures
        ({
            let unstarted = v.step == Step::Remove(Removal::Unstarted);
            let clean = after_removed(v, None);
            let stuck = after_removed(v, Some((message, visible)));
            &&& clean.step == Step::Done
            &&& stuck.step == Step::Done
            &&& clean.written == v.written
            &&& stuck.written == v.written
            &&& !unstarted ==> clean.diagnostics == v.diagnostics
            &&& !unstarted ==> stuck.diagnostics.len() == v.diagnostics.len() + 1 && ends(
                stuck.diagnostics.last(),
                message,
            )
            &&& unstarted ==> ends_with_error(v, clean, v.attempt->0.session_id, v.failure)
            &&& unstarted ==> stuck.diagnostics.len() == v.diagnostics.len() + 2 && ends(
                stuck.diagnostics.last(),
                v.failure,
            ) && ends(stuck.diagnostics[v.diagnostics.len() as int], message)
        }),
{
    let why = v.step->Remove_0;
    let id = if why == Removal::Unstarted {
        v.attempt->0.session_id
    } else {
        v.session_id
    };
    let told = about(id, removal_failure(why), message);
    assert(told.subrange(told.len() - message.len(), told.len() as int) =~= message);
    let failed = about(id, " distillation failed: "@, v.failure);
    assert(failed.subrange(failed.len() - v.failure.len(), failed.len() as int) =~= v.failure);
    lemma_about(v, id, " distillation failed: "@, v.failure);
}

} // verus!
