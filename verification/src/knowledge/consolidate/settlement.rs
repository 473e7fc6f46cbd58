//! Keeping an attempt and charging for it: the status is written, the charge
//! made, and its acknowledgement written. A write that was visible but perhaps
//! not durable is repeated once.

use crate::knowledge::consolidate::attempt::{Attempt, AttemptView, PersistFailure};
use crate::knowledge::consolidate::pass::{about, metering_notes, twice, uncommitted, Metering};
use crate::knowledge::consolidate::steps::{charge_of, outcome, same_result};
use crate::text::{cat2, cat4, ends, opt_clone, opt_view, views};
use vstd::prelude::*;

verus! {

#[derive(Debug, Clone, Copy, PartialEq, Eq, Structural)]
pub enum SettleStep {
    PersistStatus,
    RepairStatus,
    Meter,
    PersistAck,
    RepairAck,
    Settled,
    Failed,
}

#[derive(Debug)]
pub struct Settlement {
    pub attempt: Attempt,
    pub step: SettleStep,
    pub warning: String,
    pub error: String,
    pub diagnostics: Vec<String>,
}

#[verifier::ext_equal]
pub struct SettleView {
    pub attempt: AttemptView,
    pub step: SettleStep,
    pub warning: Seq<char>,
    pub error: Seq<char>,
    pub diagnostics: Seq<Seq<char>>,
}

impl View for Settlement {
    type V = SettleView;

    open spec fn view(&self) -> SettleView {
        SettleView {
            attempt: self.attempt@,
            step: self.step,
            warning: self.warning@,
            error: self.error@,
            diagnostics: views(self.diagnostics@),
        }
    }
}

/// The first thing to do for an attempt whose status is on disk.
pub open spec fn unmetered(attempt: AttemptView) -> SettleStep {
    if attempt.metering_ack {
        SettleStep::Settled
    } else {
        SettleStep::Meter
    }
}

impl SettleView {
    pub open spec fn opened(attempt: AttemptView, step: SettleStep) -> SettleView {
        SettleView {
            attempt,
            step,
            warning: Seq::empty(),
            error: Seq::empty(),
            diagnostics: Seq::empty(),
        }
    }

    pub open spec fn failed(self, error: Seq<char>) -> SettleView {
        SettleView { step: SettleStep::Failed, error, ..self }
    }

    pub open spec fn inv(self) -> bool {
        self.step == SettleStep::PersistAck || self.step == SettleStep::RepairAck || self.step
            == SettleStep::Settled ==> self.attempt.metering_ack
    }

    pub open spec fn persists(self) -> bool {
        ||| self.step == SettleStep::PersistStatus
        ||| self.step == SettleStep::RepairStatus
        ||| self.step == SettleStep::PersistAck
        ||| self.step == SettleStep::RepairAck
    }

    pub open spec fn after_persist(self, reply: Option<(Seq<char>, bool)>) -> SettleView {
        match reply {
            None => if self.step == SettleStep::PersistStatus || self.step
                == SettleStep::RepairStatus {
                SettleView { step: unmetered(self.attempt), ..self }
            } else {
                SettleView { step: SettleStep::Settled, ..self }
            },
            Some((m, visible)) => if self.step == SettleStep::RepairStatus || self.step
                == SettleStep::RepairAck {
                self.failed(twice(self.warning, m))
            } else if !visible {
                self.failed(uncommitted(m))
            } else {
                SettleView {
                    step: if self.step == SettleStep::PersistStatus {
                        SettleStep::RepairStatus
                    } else {
                        SettleStep::RepairAck
                    },
                    warning: m,
                    ..self
                }
            },
        }
    }

    pub open spec fn after_metered(self, reply: Result<Metering, String>) -> SettleView {
        match reply {
            Err(e) => self.failed(e@),
            Ok(m) => SettleView {
                step: SettleStep::PersistAck,
                attempt: AttemptView { metering_ack: true, ..self.attempt },
                diagnostics: self.diagnostics + metering_notes(
                    self.attempt.session_id,
                    views(m.durability_warnings@),
                    self.attempt.metering_warning,
                    opt_view(m.stop_message),
                ),
                ..self
            },
        }
    }
}

impl Settlement {
    fn open(attempt: Attempt, step: SettleStep) -> (r: Settlement)
        ensures
            r@ == SettleView::opened(attempt@, step),
    {
        let r = Settlement {
            attempt,
            step,
            warning: String::new(),
            error: String::new(),
            diagnostics: Vec::new(),
        };
        assert(r@.diagnostics =~= Seq::<Seq<char>>::empty());
        r
    }

    /// For an attempt that was found on disk: its status is written only where
    /// it has to be explained.
    pub fn recover(attempt: Attempt) -> (r: Settlement)
        ensures
            r@ == SettleView::opened(
                attempt@.explained(),
                if attempt@.explained() != attempt@ {
                    SettleStep::PersistStatus
                } else {
                    unmetered(attempt@)
                },
            ),
            r@.inv(),
    {
        let mut a = attempt;
        let changed = a.ensure_explainable_status();
        let step = if changed {
            SettleStep::PersistStatus
        } else if a.metering_ack {
            SettleStep::Settled
        } else {
            SettleStep::Meter
        };
        Self::open(a, step)
    }

    /// For an attempt with a result of its own: it is written first.
    pub fn keep(attempt: Attempt) -> (r: Settlement)
        ensures
            r@ == SettleView::opened(attempt@, SettleStep::PersistStatus),
            r@.inv(),
    {
        Self::open(attempt, SettleStep::PersistStatus)
    }

    /// For an attempt that is only to be charged for.
    pub fn charge(attempt: Attempt) -> (r: Settlement)
        ensures
            r@ == SettleView::opened(attempt@, unmetered(attempt@)),
            r@.inv(),
    {
        let step = if attempt.metering_ack {
            SettleStep::Settled
        } else {
            SettleStep::Meter
        };
        Self::open(attempt, step)
    }

    pub fn on_persisted(&mut self, reply: Result<(), PersistFailure>)
        requires
            old(self)@.inv(),
            old(self)@.persists(),
        ensures
            final(self)@ == old(self)@.after_persist(outcome(reply)),
            final(self)@.inv(),
    {
        match reply {
            Ok(_) => {
                let status = self.step == SettleStep::PersistStatus || self.step
                    == SettleStep::RepairStatus;
                if status && !self.attempt.metering_ack {
                    self.step = SettleStep::Meter;
                } else {
                    self.step = SettleStep::Settled;
                }
            },
            Err(f) => {
                if self.step == SettleStep::RepairStatus || self.step == SettleStep::RepairAck {
                    self.error = cat4(
                        "attempt was visible but durability repair failed: ",
                        self.warning.as_str(),
                        "; ",
                        f.message.as_str(),
                    );
                    self.step = SettleStep::Failed;
                } else if !f.committed {
                    self.error = cat2("attempt was not committed: ", f.message.as_str());
                    self.step = SettleStep::Failed;
                } else {
                    self.warning = f.message;
                    if self.step == SettleStep::PersistStatus {
                        self.step = SettleStep::RepairStatus;
                    } else {
                        self.step = SettleStep::RepairAck;
                    }
                }
            },
        }
    }

    fn say(&mut self, what: &str, error: &str)
        ensures
            final(self)@ == (SettleView {
                diagnostics: old(self)@.diagnostics.push(
                    about(old(self)@.attempt.session_id, what@, error@),
                ),
                ..old(self)@
            }),
    {
        let text = cat4("session ", self.attempt.session_id.as_str(), what, error);
        let ghost before = self.diagnostics@;
        let ghost t = text@;
        self.diagnostics.push(text);
        assert(views(self.diagnostics@) =~= views(before).push(t));
    }

    pub fn on_metered(&mut self, reply: Result<Metering, String>)
        requires
            old(self)@.step == SettleStep::Meter,
        ensures
            final(self)@ == old(self)@.after_metered(reply),
            final(self)@.inv(),
    {
        match reply {
            Err(e) => {
                self.error = e;
                self.step = SettleStep::Failed;
            },
            Ok(m) => {
                let ghost before = self@;
                let ghost repaired = views(m.durability_warnings@).map_values(
                    |w: Seq<char>|
                        about(before.attempt.session_id, " metering durability repaired: "@, w),
                );
                let mut i: usize = 0;
                assert(before.diagnostics + repaired.take(0) =~= before.diagnostics);
                while i < m.durability_warnings.len()
                    invariant
                        i <= m.durability_warnings@.len(),
                        repaired == views(m.durability_warnings@).map_values(
                            |w: Seq<char>|
                                about(
                                    before.attempt.session_id,
                                    " metering durability repaired: "@,
                                    w,
                                ),
                        ),
                        self@ == (SettleView {
                            diagnostics: before.diagnostics + repaired.take(i as int),
                            ..before
                        }),
                    decreases m.durability_warnings@.len() - i,
                {
                    self.say(
                        " metering durability repaired: ",
                        m.durability_warnings[i].as_str(),
                    );
                    i = i + 1;
                    assert(repaired.take(i as int) =~= repaired.take(i - 1).push(repaired[i - 1]));
                    assert(self@.diagnostics =~= before.diagnostics + repaired.take(i as int));
                }
                assert(repaired.take(i as int) =~= repaired);
                let degraded = opt_clone(&self.attempt.metering_warning);
                if let Some(w) = degraded {
                    self.say(" Provider metering degraded: ", w.as_str());
                }
                if let Some(message) = m.stop_message {
                    self.say(" goal stopped after consolidation charge: ", message.as_str());
                }
                assert(self@.diagnostics =~= before.diagnostics + metering_notes(
                    before.attempt.session_id,
                    views(m.durability_warnings@),
                    before.attempt.metering_warning,
                    opt_view(m.stop_message),
                ));
                self.attempt.metering_ack = true;
                self.step = SettleStep::PersistAck;
            },
        }
    }
}

/// A settlement that succeeded has charged for its attempt, and recorded that.
pub proof fn law_settled_is_acknowledged(settlement: SettleView)
    requires
        settlement.inv(),
        settlement.step == SettleStep::Settled,
    ensures
        settlement.attempt.metering_ack,
{
}

/// Writing a record changes nothing in it. Once its status is written it is
/// charged for, unless that was done before; once the acknowledgement is written
/// it is settled. A write that never became visible fails, one that was visible is
/// repeated, and the second failure ends it with its error.
pub proof fn law_settlement_goes_on(s: SettleView, message: Seq<char>)
    requires
        s.persists(),
    ensures
        ({
            let status = s.step == SettleStep::PersistStatus || s.step == SettleStep::RepairStatus;
            let repeated = s.step == SettleStep::RepairStatus || s.step == SettleStep::RepairAck;
            let done = s.after_persist(None);
            let doubtful = s.after_persist(Some((message, true)));
            let lost = s.after_persist(Some((message, false)));
            &&& done.attempt == s.attempt && doubtful.attempt == s.attempt && lost.attempt == s.attempt
            &&& done.diagnostics == s.diagnostics
            &&& status && !s.attempt.metering_ack ==> done.step == SettleStep::Meter
            &&& status && s.attempt.metering_ack ==> done.step == SettleStep::Settled
            &&& !status ==> done.step == SettleStep::Settled
            &&& lost.step == SettleStep::Failed && ends(lost.error, message)
            &&& repeated ==> doubtful.step == SettleStep::Failed && ends(doubtful.error, message)
            &&& !repeated ==> doubtful.persists() && doubtful.warning == message && doubtful.step
                != s.step
        }),
{
    let a = uncommitted(message);
    let b = twice(s.warning, message);
    assert(a.subrange(a.len() - message.len(), a.len() as int) =~= message);
    assert(b.subrange(b.len() - message.len(), b.len() as int) =~= message);
}

/// A charge that succeeded is acknowledged on the record of the same work and
/// result, and what it has to say is told; one that failed changes nothing and
/// ends with its error.
pub proof fn law_settlement_acknowledges_the_charge(s: SettleView, m: Metering, error: String)
    requires
        s.step == SettleStep::Meter,
    ensures
        ({
            let next = s.after_metered(Ok(m));
            &&& next.step == SettleStep::PersistAck
            &&& next.attempt.metering_ack
            &&& same_result(next.attempt, s.attempt)
            &&& next.attempt.next_note == s.attempt.next_note
            &&& charge_of(next.attempt) == charge_of(s.attempt)
            &&& next.diagnostics.len() >= s.diagnostics.len() + m.durability_warnings@.len()
            &&& next.diagnostics.take(s.diagnostics.len() as int) == s.diagnostics
            &&& m.stop_message matches Some(text) ==> next.diagnostics.len() > 0 && ends(
                next.diagnostics.last(),
                text@,
            )
        }),
        s.after_metered(Err(error)).step == SettleStep::Failed,
        s.after_metered(Err(error)).error == error@,
        s.after_metered(Err(error)).attempt == s.attempt,
{
    let next = s.after_metered(Ok(m));
    assert(next.diagnostics.take(s.diagnostics.len() as int) =~= s.diagnostics);
    if let Some(message) = m.stop_message {
        let w = message@;
        let text = about(s.attempt.session_id, " goal stopped after consolidation charge: "@, w);
        assert(next.diagnostics.last() == text);
        assert(text.subrange(text.len() - w.len(), text.len() as int) =~= w);
    }
}

} // verus!
