//! What a user can do about an attempt whose result is unknown: see it,
//! acknowledge its cost, or discard it.

use crate::knowledge::consolidate::attempt::{
    check_loaded, load_error, Attempt, AttemptView, PersistFailure,
};
use crate::knowledge::consolidate::lease::{validate, SessionLease};
use crate::knowledge::consolidate::pass::{about, Metering};
use crate::knowledge::consolidate::settlement::{
    unmetered, SettleStep, SettleView, Settlement,
};
use crate::knowledge::consolidate::steps::{outcome, same_result};
use crate::text::{cat3, cat4, ends, views};
use vstd::prelude::*;

verus! {

/// A blocked attempt, as it is shown.
#[derive(Debug, PartialEq, Eq)]
pub struct BlockedConsolidationAttempt {
    pub session_id: String,
    pub status: String,
    pub reason: String,
    pub message_revision: Option<u64>,
    pub usage_unknown: bool,
    pub metering_settled: bool,
}

/// What an acknowledgement did.
#[derive(Debug, PartialEq, Eq)]
pub struct AcknowledgeUnknownResult {
    pub session_id: String,
    pub checkpointed_revision: Option<u64>,
    pub usage_unknown_recorded: bool,
    pub diagnostics: Vec<String>,
}

/// An attempt is shown where its session has no owner and it has no result.
pub open spec fn shown(r: BlockedConsolidationAttempt, a: AttemptView) -> bool {
    &&& r.session_id@ == a.session_id
    &&& r.status@ == "provider_result_unknown"@
    &&& Some(r.reason@) == a.explained().reason
    &&& r.message_revision == a.message_revision
    &&& r.usage_unknown == a.usage_unknown()
    &&& r.metering_settled == a.metering_ack
}

/// The attempts to show, in order: those that are free and blocked.
pub open spec fn to_show(attempts: Seq<(bool, Option<Attempt>)>) -> Seq<AttemptView>
    decreases attempts.len(),
{
    if attempts.len() == 0 {
        Seq::empty()
    } else {
        let head = to_show(attempts.drop_last());
        match attempts.last() {
            (true, Some(a)) => if a@.blocked() {
                head.push(a@)
            } else {
                head
            },
            _ => head,
        }
    }
}

/// The blocked attempts among those found: each with whether its session is
/// free, that is, has no owner that may still be recording a result.
pub fn blocked_attempts(found: &Vec<(bool, Option<Attempt>)>) -> (r: Vec<
    BlockedConsolidationAttempt,
>)
    ensures
        r@.len() == to_show(found@).len(),
        forall|i: int| 0 <= i < r@.len() ==> shown(#[trigger] r@[i], to_show(found@)[i]),
{
    let mut out: Vec<BlockedConsolidationAttempt> = Vec::new();
    let mut i: usize = 0;
    while i < found.len()
        invariant
            i <= found@.len(),
            out@.len() == to_show(found@.take(i as int)).len(),
            forall|j: int|
                0 <= j < out@.len() ==> shown(#[trigger] out@[j], to_show(found@.take(i as int))[j]),
        decreases found@.len() - i,
    {
        assert(found@.take(i + 1).drop_last() =~= found@.take(i as int));
        let (free, attempt) = &found[i];
        if *free {
            if let Some(a) = attempt {
                if a.is_blocked() {
                    out.push(
                        BlockedConsolidationAttempt {
                            session_id: a.session_id.clone(),
                            status: "provider_result_unknown".to_owned(),
                            reason: a.reason().to_owned(),
                            message_revision: a.message_revision,
                            usage_unknown: a.usage_unknown(),
                            metering_settled: a.metering_ack,
                        },
                    );
                }
            }
        }
        i = i + 1;
    }
    assert(found@.take(i as int) =~= found@);
    out
}

#[derive(Debug, Clone, Copy, PartialEq, Eq, Structural)]
pub enum AckStep {
    Settle,
    Checkpoint,
    EnsureDurable,
    Remove,
    RemoveAgain,
    Done,
}

/// The acknowledgement of a call with an unknown result: charge, checkpoint,
/// removal, in this order.
pub struct Acknowledgement {
    pub session_id: String,
    pub step: AckStep,
    pub settlement: Settlement,
    pub usage_unknown_recorded: bool,
    pub warning: String,
    pub error: Option<String>,
}

#[verifier::ext_equal]
pub struct AckView {
    pub session_id: Seq<char>,
    pub step: AckStep,
    pub settlement: SettleView,
    pub usage_unknown_recorded: bool,
    pub warning: Seq<char>,
    pub error: Option<Seq<char>>,
}

impl View for Acknowledgement {
    type V = AckView;

    open spec fn view(&self) -> AckView {
        AckView {
            session_id: self.session_id@,
            step: self.step,
            settlement: self.settlement@,
            usage_unknown_recorded: self.usage_unknown_recorded,
            warning: self.warning@,
            error: crate::text::opt_view(self.error),
        }
    }
}

impl AckView {
    pub open spec fn at(self, step: AckStep) -> AckView {
        AckView { step, ..self }
    }

    pub open spec fn failed(self, error: Seq<char>) -> AckView {
        AckView { step: AckStep::Done, error: Some(error), ..self }
    }

    /// The settlement moved: a failure ends the acknowledgement, success goes
    /// on to the checkpoint where the attempt names one.
    pub open spec fn settling(self, settlement: SettleView) -> AckView {
        let next = AckView { settlement, ..self };
        if settlement.step == SettleStep::Failed {
            next.failed(settlement.error)
        } else if settlement.step == SettleStep::Settled {
            if settlement.attempt.checkpoint_target() is Some {
                next.at(AckStep::Checkpoint)
            } else {
                next.at(AckStep::Remove)
            }
        } else {
            next
        }
    }

    pub open spec fn inv(self) -> bool {
        &&& self.settlement.inv()
        &&& self.step == AckStep::Settle ==> self.settlement.step != SettleStep::Failed
            && self.settlement.step != SettleStep::Settled
        &&& self.step != AckStep::Settle && self.step != AckStep::Done ==> self.settlement.step
            == SettleStep::Settled
        &&& self.step == AckStep::Checkpoint ==> self.settlement.attempt.checkpoint_target() is Some
        &&& self.error is Some ==> self.step == AckStep::Done
    }
}

/// Why there is nothing to acknowledge.
pub open spec fn ack_refusal(
    lease: Seq<char>,
    id: Seq<char>,
    found: Result<Option<Attempt>, String>,
    path: Seq<char>,
) -> Option<Seq<char>> {
    if lease != id {
        Some("consolidation lease "@ + lease + " does not match session "@ + id)
    } else {
        match found {
            Err(e) => Some(e@),
            Ok(None) => Some("session "@ + id + " has no blocked consolidation attempt"@),
            Ok(Some(a)) => match load_error(a@, id, path) {
                Some(e) => Some(e),
                None => if a@.blocked() {
                    None
                } else {
                    Some("session "@ + id + " consolidation result is already recorded"@)
                },
            },
        }
    }
}

impl Acknowledgement {
    /// Opens an acknowledgement for what was found on disk for the session.
    pub fn open(
        lease: &SessionLease,
        session_id: &str,
        found: Result<Option<Attempt>, String>,
        path: &str,
    ) -> (r: Result<Acknowledgement, String>)
        ensures
            match ack_refusal(lease@, session_id@, found, path@) {
                Some(error) => r matches Err(e) && e@ == error,
                None => {
                    let a = found->Ok_0->0@;
                    &&& r matches Ok(ack)
                    &&& ack@.inv()
                    &&& ack@ == (AckView {
                        session_id: session_id@,
                        step: AckStep::Settle,
                        settlement: SettleView::opened(a, unmetered(a)),
                        usage_unknown_recorded: a.usage_unknown(),
                        warning: Seq::empty(),
                        error: None,
                    }).settling(SettleView::opened(a, unmetered(a)))
                },
            },
    {
        match validate(lease, session_id) {
            Err(e) => return Err(e),
            Ok(_) => {},
        }
        match found {
            Err(e) => Err(e),
            Ok(None) => Err(cat3("session ", session_id, " has no blocked consolidation attempt")),
            Ok(Some(a)) => match check_loaded(a, session_id, path) {
                Err(e) => Err(e),
                Ok(a) => {
                    if !a.is_blocked() {
                        return Err(
                            cat3(
                                "session ",
                                session_id,
                                " consolidation result is already recorded",
                            ),
                        );
                    }
                    let usage_unknown_recorded = a.usage_unknown();
                    let mut ack = Acknowledgement {
                        session_id: session_id.to_owned(),
                        step: AckStep::Settle,
                        settlement: Settlement::charge(a),
                        usage_unknown_recorded,
                        warning: String::new(),
                        error: None,
                    };
                    ack.settled();
                    Ok(ack)
                },
            },
        }
    }

    fn settled(&mut self)
        requires
            old(self)@.settlement.inv(),
            old(self)@.step == AckStep::Settle,
            old(self)@.error is None,
        ensures
            final(self)@ == old(self)@.settling(old(self)@.settlement),
            final(self)@.inv(),
    {
        if self.settlement.step == SettleStep::Failed {
            self.error = Some(self.settlement.error.clone());
            self.step = AckStep::Done;
        } else if self.settlement.step == SettleStep::Settled {
            if self.settlement.attempt.checkpoint_target().is_some() {
                self.step = AckStep::Checkpoint;
            } else {
                self.step = AckStep::Remove;
            }
        }
    }

    pub fn on_persisted(&mut self, reply: Result<(), PersistFailure>)
        requires
            old(self)@.inv(),
            old(self)@.step == AckStep::Settle,
            old(self)@.settlement.persists(),
        ensures
            final(self)@ == old(self)@.settling(
                old(self)@.settlement.after_persist(outcome(reply)),
            ),
            final(self)@.inv(),
    {
        self.settlement.on_persisted(reply);
        self.settled();
    }

    pub fn on_metered(&mut self, reply: Result<Metering, String>)
        requires
            old(self)@.inv(),
            old(self)@.step == AckStep::Settle,
            old(self)@.settlement.step == SettleStep::Meter,
        ensures
            final(self)@ == old(self)@.settling(old(self)@.settlement.after_metered(reply)),
            final(self)@.inv(),
    {
        self.settlement.on_metered(reply);
        self.settled();
    }

    pub fn on_checkpointed(&mut self, reply: Result<bool, String>)
        requires
            old(self)@.inv(),
            old(self)@.step == AckStep::Checkpoint,
        ensures
            final(self)@ == (match reply {
                Ok(true) => old(self)@.at(AckStep::Remove),
                Ok(false) => old(self)@.at(AckStep::EnsureDurable),
                Err(e) => old(self)@.failed(
                    about(old(self)@.session_id, " UNKNOWN checkpoint failed: "@, e@),
                ),
            }),
            final(self)@.inv(),
    {
        match reply {
            Ok(committed) => {
                if committed {
                    self.step = AckStep::Remove;
                } else {
                    self.step = AckStep::EnsureDurable;
                }
            },
            Err(e) => {
                let text = cat4(
                    "session ",
                    self.session_id.as_str(),
                    " UNKNOWN checkpoint failed: ",
                    e.as_str(),
                );
                self.error = Some(text);
                self.step = AckStep::Done;
            },
        }
    }

    pub fn on_durable(&mut self, reply: Result<(), String>)
        requires
            old(self)@.inv(),
            old(self)@.step == AckStep::EnsureDurable,
        ensures
            final(self)@ == (match reply {
                Ok(_) => old(self)@.at(AckStep::Remove),
                Err(e) => old(self)@.failed(e@),
            }),
            final(self)@.inv(),
    {
        match reply {
            Ok(_) => {
                self.step = AckStep::Remove;
            },
            Err(e) => {
                self.error = Some(e);
                self.step = AckStep::Done;
            },
        }
    }

    /// A removal that was visible but perhaps not durable is repeated once.
    pub fn on_removed(&mut self, reply: Result<(), PersistFailure>)
        requires
            old(self)@.inv(),
            old(self)@.step == AckStep::Remove || old(self)@.step == AckStep::RemoveAgain,
        ensures
            final(self)@ == (match outcome(reply) {
                None => old(self)@.at(AckStep::Done),
                Some((m, visible)) => if old(self)@.step == AckStep::RemoveAgain {
                    old(self)@.failed(removed_twice(old(self)@.warning, m))
                } else if visible {
                    AckView { step: AckStep::RemoveAgain, warning: m, ..old(self)@ }
                } else {
                    old(self)@.failed(m)
                },
            }),
            final(self)@.inv(),
    {
        match reply {
            Ok(_) => {
                self.step = AckStep::Done;
            },
            Err(f) => {
                if self.step == AckStep::RemoveAgain {
                    let text = cat4(
                        "attempt removal was visible but durability repair failed: ",
                        self.warning.as_str(),
                        "; ",
                        f.message.as_str(),
                    );
                    self.error = Some(text);
                    self.step = AckStep::Done;
                } else if f.committed {
                    self.warning = f.message;
                    self.step = AckStep::RemoveAgain;
                } else {
                    self.error = Some(f.message);
                    self.step = AckStep::Done;
                }
            },
        }
    }

    /// What the acknowledgement came to.
    pub fn result(self) -> (r: Result<AcknowledgeUnknownResult, String>)
        requires
            self@.inv(),
            self@.step == AckStep::Done,
        ensures
            match self@.error {
                Some(error) => r matches Err(e) && e@ == error,
                None => {
                    &&& r matches Ok(done)
                    &&& done.session_id@ == self@.session_id
                    &&& done.checkpointed_revision == (
                    match self@.settlement.attempt.checkpoint_target() {
                        Some((revision, _)) => Some(revision),
                        None => None,
                    })
                    &&& done.usage_unknown_recorded == self@.usage_unknown_recorded
                    &&& views(done.diagnostics@) == self@.settlement.diagnostics
                },
            },
    {
        match self.error {
            Some(e) => Err(e),
            None => {
                let checkpointed_revision: Option<u64> =
                    match self.settlement.attempt.checkpoint_target() {
                    Some(target) => Some(target.0),
                    None => None,
                };
                Ok(
                    AcknowledgeUnknownResult {
                        session_id: self.session_id,
                        checkpointed_revision,
                        usage_unknown_recorded: self.usage_unknown_recorded,
                        diagnostics: self.settlement.diagnostics,
                    },
                )
            },
        }
    }
}

/// A removal that failed twice: it was visible the first time.
pub open spec fn removed_twice(first: Seq<char>, repair: Seq<char>) -> Seq<char> {
    "attempt removal was visible but durability repair failed: "@ + first + "; "@ + repair
}

/// The charge is acknowledged before the checkpoint is committed, and the
/// checkpoint committed before the attempt is removed.
pub proof fn law_acknowledgement_order(ack: AckView)
    requires
        ack.inv(),
    ensures
        ack.step == AckStep::Checkpoint || ack.step == AckStep::EnsureDurable || ack.step
            == AckStep::Remove || ack.step == AckStep::RemoveAgain
            ==> ack.settlement.attempt.metering_ack,
{
}

/// An attempt without a revision and a cursor is acknowledged without a
/// checkpoint, so that messages written after it stay to be consolidated.
pub proof fn law_no_checkpoint_without_a_cursor(ack: AckView)
    requires
        ack.inv(),
        ack.settlement.attempt.message_cursor is None || ack.settlement.attempt.message_revision is None,
    ensures
        ack.step != AckStep::Checkpoint,
{
}

#[derive(Debug, Clone, Copy, PartialEq, Eq, Structural)]
pub enum DiscardStep {
    Load,
    Settle,
    Remove,
    RemoveAgain,
    ForgetSession,
    Done,
}

/// The discard of a session's attempt: it is settled, removed, and the session's
/// watermarks are forgotten, in this order.
pub struct Discard {
    pub session_id: String,
    pub step: DiscardStep,
    /// None where there is no attempt.
    pub settlement: Option<Settlement>,
    pub warning: String,
    pub error: Option<String>,
}

#[verifier::ext_equal]
pub struct DiscardView {
    pub session_id: Seq<char>,
    pub step: DiscardStep,
    pub settlement: Option<SettleView>,
    pub warning: Seq<char>,
    pub error: Option<Seq<char>>,
}

impl View for Discard {
    type V = DiscardView;

    open spec fn view(&self) -> DiscardView {
        DiscardView {
            session_id: self.session_id@,
            step: self.step,
            settlement: match self.settlement {
                Some(s) => Some(s@),
                None => None,
            },
            warning: self.warning@,
            error: crate::text::opt_view(self.error),
        }
    }
}

impl DiscardView {
    pub open spec fn started(session_id: Seq<char>) -> DiscardView {
        DiscardView {
            session_id,
            step: DiscardStep::Load,
            settlement: None,
            warning: Seq::empty(),
            error: None,
        }
    }

    pub open spec fn at(self, step: DiscardStep) -> DiscardView {
        DiscardView { step, ..self }
    }

    pub open spec fn failed(self, error: Seq<char>) -> DiscardView {
        DiscardView { step: DiscardStep::Done, error: Some(error), ..self }
    }

    /// The settlement moved: a failure ends the discard, and only a settled
    /// attempt is removed.
    pub open spec fn settling(self, settlement: SettleView) -> DiscardView {
        let next = DiscardView { settlement: Some(settlement), ..self };
        if settlement.step == SettleStep::Failed {
            next.failed(settlement.error)
        } else if settlement.step == SettleStep::Settled {
            next.at(DiscardStep::Remove)
        } else {
            next.at(DiscardStep::Settle)
        }
    }

    /// What was found on disk for the session. Without an attempt there is
    /// nothing to settle.
    pub open spec fn after_loaded(
        self,
        found: Result<Option<Attempt>, String>,
        path: Seq<char>,
    ) -> DiscardView {
        match found {
            Err(e) => self.failed(e@),
            Ok(None) => self.at(DiscardStep::Remove),
            Ok(Some(a)) => match load_error(a@, self.session_id, path) {
                Some(e) => self.failed(e),
                None => self.settling(recovered(a@)),
            },
        }
    }

    /// A removal that was visible but perhaps not durable is repeated once.
    pub open spec fn after_removed(self, reply: Option<(Seq<char>, bool)>) -> DiscardView {
        match reply {
            None => self.at(DiscardStep::ForgetSession),
            Some((m, visible)) => if self.step == DiscardStep::RemoveAgain {
                self.failed(removed_twice(self.warning, m))
            } else if visible {
                DiscardView { step: DiscardStep::RemoveAgain, warning: m, ..self }
            } else {
                self.failed(m)
            },
        }
    }

    /// An attempt that was found is settled.
    pub open spec fn is_settled(self) -> bool {
        self.settlement matches Some(s) ==> s.step == SettleStep::Settled
    }

    pub open spec fn inv(self) -> bool {
        &&& self.settlement matches Some(s) ==> s.inv()
        &&& self.error is Some ==> self.step == DiscardStep::Done
        &&& match self.step {
            DiscardStep::Load => self.settlement is None,
            DiscardStep::Settle => self.settlement matches Some(s) && s.step != SettleStep::Failed
                && s.step != SettleStep::Settled,
            DiscardStep::Remove | DiscardStep::RemoveAgain
            | DiscardStep::ForgetSession => self.is_settled(),
            DiscardStep::Done => self.error is None ==> self.is_settled(),
        }
    }
}

/// The settlement of an attempt that was found on disk.
pub open spec fn recovered(attempt: AttemptView) -> SettleView {
    SettleView::opened(
        attempt.explained(),
        if attempt.explained() != attempt {
            SettleStep::PersistStatus
        } else {
            unmetered(attempt)
        },
    )
}

impl Discard {
    pub fn start(session_id: &str) -> (r: Discard)
        ensures
            r@ == DiscardView::started(session_id@),
            r@.inv(),
    {
        Discard {
            session_id: session_id.to_owned(),
            step: DiscardStep::Load,
            settlement: None,
            warning: String::new(),
            error: None,
        }
    }

    fn fail(&mut self, error: String)
        ensures
            final(self)@ == old(self)@.failed(error@),
    {
        self.error = Some(error);
        self.step = DiscardStep::Done;
    }

    fn settle(&mut self, settlement: Settlement)
        requires
            settlement@.inv(),
            old(self)@.error is None,
        ensures
            final(self)@ == old(self)@.settling(settlement@),
            final(self)@.inv(),
    {
        let step = settlement.step;
        if step == SettleStep::Failed {
            self.fail(settlement.error.clone());
        } else if step == SettleStep::Settled {
            self.step = DiscardStep::Remove;
        } else {
            self.step = DiscardStep::Settle;
        }
        self.settlement = Some(settlement);
    }

    pub fn on_loaded(&mut self, found: Result<Option<Attempt>, String>, path: &str)
        requires
            old(self)@.inv(),
            old(self)@.step == DiscardStep::Load,
        ensures
            final(self)@ == old(self)@.after_loaded(found, path@),
            final(self)@.inv(),
    {
        match found {
            Err(e) => self.fail(e),
            Ok(None) => {
                self.step = DiscardStep::Remove;
            },
            Ok(Some(a)) => match check_loaded(a, self.session_id.as_str(), path) {
                Err(e) => self.fail(e),
                Ok(a) => self.settle(Settlement::recover(a)),
            },
        }
    }

    /// For a write of the attempt under settlement.
    pub fn on_persisted(&mut self, reply: Result<(), PersistFailure>)
        requires
            old(self)@.inv(),
            old(self)@.step == DiscardStep::Settle,
            old(self)@.settlement->0.persists(),
        ensures
            final(self)@ == old(self)@.settling(
                old(self)@.settlement->0.after_persist(outcome(reply)),
            ),
            final(self)@.inv(),
    {
        if let Some(mut settlement) = self.settlement.take() {
            settlement.on_persisted(reply);
            self.settle(settlement);
        }
    }

    pub fn on_metered(&mut self, reply: Result<Metering, String>)
        requires
            old(self)@.inv(),
            old(self)@.step == DiscardStep::Settle,
            old(self)@.settlement->0.step == SettleStep::Meter,
        ensures
            final(self)@ == old(self)@.settling(old(self)@.settlement->0.after_metered(reply)),
            final(self)@.inv(),
    {
        if let Some(mut settlement) = self.settlement.take() {
            settlement.on_metered(reply);
            self.settle(settlement);
        }
    }

    pub fn on_removed(&mut self, reply: Result<(), PersistFailure>)
        requires
            old(self)@.inv(),
            old(self)@.step == DiscardStep::Remove || old(self)@.step == DiscardStep::RemoveAgain,
        ensures
            final(self)@ == old(self)@.after_removed(outcome(reply)),
            final(self)@.inv(),
    {
        match reply {
            Ok(_) => {
                self.step = DiscardStep::ForgetSession;
            },
            Err(f) => {
                if self.step == DiscardStep::RemoveAgain {
                    let text = cat4(
                        "attempt removal was visible but durability repair failed: ",
                        self.warning.as_str(),
                        "; ",
                        f.message.as_str(),
                    );
                    self.fail(text);
                } else if f.committed {
                    self.warning = f.message;
                    self.step = DiscardStep::RemoveAgain;
                } else {
                    self.fail(f.message);
                }
            },
        }
    }

    pub fn on_forgotten(&mut self, reply: Result<(), String>)
        requires
            old(self)@.inv(),
            old(self)@.step == DiscardStep::ForgetSession,
        ensures
            final(self)@ == (match reply {
                Ok(_) => old(self)@.at(DiscardStep::Done),
                Err(e) => old(self)@.failed(e@),
            }),
            final(self)@.inv(),
    {
        match reply {
            Ok(_) => {
                self.step = DiscardStep::Done;
            },
            Err(e) => self.fail(e),
        }
    }

    /// What the discard came to.
    pub fn result(self) -> (r: Result<(), String>)
        requires
            self@.step == DiscardStep::Done,
        ensures
            match self@.error {
                Some(error) => r matches Err(e) && e@ == error,
                None => r is Ok,
            },
    {
        match self.error {
            Some(e) => Err(e),
            None => Ok(()),
        }
    }
}

/// Nothing of a session is removed or forgotten before what its attempt cost is
/// charged and acknowledged.
pub proof fn law_discard_settles_first(discard: DiscardView)
    requires
        discard.inv(),
        discard.step == DiscardStep::Remove || discard.step == DiscardStep::RemoveAgain
            || discard.step == DiscardStep::ForgetSession || (discard.step == DiscardStep::Done
            && discard.error is None),
    ensures
        discard.settlement matches Some(s) ==> s.attempt.metering_ack,
{
}

/// A settlement that fails ends the discard with its error, and nothing is
/// removed; so does an attempt that cannot be read.
pub proof fn law_failed_settlement_discards_nothing(
    discard: DiscardView,
    settlement: SettleView,
    error: String,
    path: Seq<char>,
)
    requires
        settlement.step == SettleStep::Failed,
    ensures
        discard.settling(settlement).step == DiscardStep::Done,
        discard.settling(settlement).error == Some(settlement.error),
        discard.after_loaded(Err(error), path).step == DiscardStep::Done,
        discard.after_loaded(Err(error), path).error == Some(error@),
{
}

/// The settlement that precedes the deletion of a session: none where there is
/// no attempt, else one that makes no call and writes no note.
pub fn settle_for_discard_leased(
    lease: &SessionLease,
    session_id: &str,
    found: Result<Option<Attempt>, String>,
    path: &str,
) -> (r: Result<Option<Settlement>, String>)
    ensures
        if lease@ != session_id@ {
            r matches Err(e) && e@ == "consolidation lease "@ + lease@
                + " does not match session "@ + session_id@
        } else {
            match found {
                Err(e) => r == Err::<Option<Settlement>, String>(e),
                Ok(None) => r == Ok::<Option<Settlement>, String>(None),
                Ok(Some(a)) => match load_error(a@, session_id@, path@) {
                    Some(error) => r matches Err(e) && e@ == error,
                    None => {
                        &&& r matches Ok(Some(s))
                        &&& s@.inv()
                        &&& s@ == recovered(a@)
                    },
                },
            }
        },
{
    match validate(lease, session_id) {
        Err(e) => return Err(e),
        Ok(_) => {},
    }
    match found {
        Err(e) => Err(e),
        Ok(None) => Ok(None),
        Ok(Some(a)) => match check_loaded(a, session_id, path) {
            Err(e) => Err(e),
            Ok(a) => Ok(Some(Settlement::recover(a))),
        },
    }
}

/// A record that is taken up again is the same work, with the same result, cost
/// and acknowledgement; only a status that its notes call for is put right. It is
/// charged for unless that was acknowledged.
pub proof fn law_recovered_record_is_the_same(a: AttemptView)
    ensures
        same_result(recovered(a).attempt, a),
        recovered(a).attempt.next_note == a.next_note,
        recovered(a).attempt.metering_ack == a.metering_ack,
        (recovered(a).attempt.reason is None) == (a.notes is Some),
        recovered(a).step == SettleStep::PersistStatus || recovered(a).step == (if a.metering_ack {
            SettleStep::Settled
        } else {
            SettleStep::Meter
        }),
        recovered(a).step == SettleStep::PersistStatus <==> recovered(a).attempt != a,
{
}

/// An acknowledgement is refused for a session that the lease is not for, for a
/// record that cannot be read, that is not there, that is another session's or
/// whose cursor is out of range, and for one whose result is known; and for no
/// other.
pub proof fn law_only_unknown_results_are_acknowledged(
    lease: Seq<char>,
    id: Seq<char>,
    found: Result<Option<Attempt>, String>,
    path: Seq<char>,
)
    ensures
        ack_refusal(lease, id, found, path) is None <==> lease == id && (found matches Ok(Some(a))
            && a@.session_id == id && a@.notes is None),
        lease == id && found is Err ==> ack_refusal(lease, id, found, path) == Some(
            found->Err_0@,
        ),
{
}

/// An acknowledgement is settled before anything else: a settled one is
/// checkpointed where its record names a revision and a cursor, and else only
/// removed; a failed one ends with the error of the settlement.
pub proof fn law_acknowledgement_follows_the_settlement(ack: AckView, s: SettleView)
    ensures
        ({
            let next = ack.settling(s);
            &&& next.settlement == s
            &&& next.session_id == ack.session_id
            &&& next.usage_unknown_recorded == ack.usage_unknown_recorded
            &&& s.step == SettleStep::Failed ==> next.step == AckStep::Done && next.error == Some(
                s.error,
            )
            &&& s.step == SettleStep::Settled && s.attempt.message_revision is Some
                && s.attempt.message_cursor is Some ==> next.step == AckStep::Checkpoint && next.error
                == ack.error
            &&& s.step == SettleStep::Settled && (s.attempt.message_revision is None
                || s.attempt.message_cursor is None) ==> next.step == AckStep::Remove && next.error
                == ack.error
            &&& s.step != SettleStep::Failed && s.step != SettleStep::Settled ==> next.step
                == ack.step
        }),
{
}

/// A discard settles the record that it finds, removes the file, and forgets the
/// session, in this order; a record that is not there has nothing to settle. A
/// removal that stays in doubt ends with both errors.
pub proof fn law_discard_goes_on(
    discard: DiscardView,
    a: Attempt,
    path: Seq<char>,
    s: SettleView,
    message: Seq<char>,
)
    ensures
        discard.after_loaded(Ok(None), path) == discard.at(DiscardStep::Remove),
        a@.session_id == discard.session_id && (a@.notes is Some ==> a@.next_note
            <= a@.notes->0.len()) ==> (discard.after_loaded(Ok(Some(a)), path).settlement matches Some(
            own,
        ) && same_result(own.attempt, a@)),
        a@.session_id != discard.session_id ==> discard.after_loaded(Ok(Some(a)), path).error is Some,
        s.step == SettleStep::Settled ==> discard.settling(s).step == DiscardStep::Remove,
        s.step != SettleStep::Settled && s.step != SettleStep::Failed ==> discard.settling(s).step
            == DiscardStep::Settle,
        discard.settling(s).settlement == Some(s),
        discard.after_removed(None) == discard.at(DiscardStep::ForgetSession),
        discard.after_removed(Some((message, false))).step == DiscardStep::Done,
        discard.after_removed(Some((message, false))).error matches Some(e) && ends(e, message),
        discard.step == DiscardStep::RemoveAgain ==> (discard.after_removed(
            Some((message, true)),
        ).error matches Some(e) && ends(e, message)),
        discard.step != DiscardStep::RemoveAgain ==> discard.after_removed(
            Some((message, true)),
        ).step == DiscardStep::RemoveAgain && discard.after_removed(Some((message, true))).warning
            == message,
{
    law_recovered_record_is_the_same(a@);
    let both = removed_twice(discard.warning, message);
    assert(both.subrange(both.len() - message.len(), both.len() as int) =~= message);
    assert(message.subrange(0, message.len() as int) =~= message);
}

/// What is shown is exactly the records without a result that belong to a session
/// to be shown.
pub proof fn law_every_blocked_record_is_shown(found: Seq<(bool, Option<Attempt>)>)
    ensures
        forall|i: int|
            0 <= i < to_show(found).len() ==> exists|k: int|
                0 <= k < found.len() && (#[trigger] found[k]).0 && (found[k].1 matches Some(a) && a@
                    == #[trigger] to_show(found)[i] && a@.notes is None),
        forall|k: int|
            0 <= k < found.len() && (#[trigger] found[k]).0 && (found[k].1 matches Some(a)
                && a@.notes is None) ==> to_show(found).contains(found[k].1->0@),
    decreases found.len(),
{
    if found.len() > 0 {
        let init = found.drop_last();
        let head = to_show(init);
        let out = to_show(found);
        law_every_blocked_record_is_shown(init);
        assert forall|i: int| 0 <= i < out.len() implies exists|k: int|
            0 <= k < found.len() && (#[trigger] found[k]).0 && (found[k].1 matches Some(a) && a@
                == #[trigger] out[i] && a@.notes is None) by {
            if i < head.len() {
                assert(out[i] == head[i]);
                let k = choose|k: int|
                    0 <= k < init.len() && (#[trigger] init[k]).0 && (init[k].1 matches Some(a) && a@
                        == head[i] && a@.notes is None);
                assert(found[k] == init[k]);
            } else {
                assert(found[found.len() - 1] == found.last());
            }
        }
        assert forall|k: int|
            0 <= k < found.len() && (#[trigger] found[k]).0 && (found[k].1 matches Some(a)
                && a@.notes is None) implies out.contains(found[k].1->0@) by {
            if k < init.len() {
                assert(init[k] == found[k]);
                let p = choose|p: int| 0 <= p < head.len() && head[p] == found[k].1->0@;
                assert(out[p] == head[p]);
            } else {
                assert(out.last() == found[k].1->0@);
            }
        }
    }
}

} // verus!
