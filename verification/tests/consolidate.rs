use kxen_core::knowledge::consolidate::attempt::{check_loaded, entry_session, Attempt, AttemptStatus, PersistFailure};
use kxen_core::knowledge::consolidate::delete::{
    discard_for_session, discard_for_session_leased, run_for_delete, DeleteDistillRequest, DeleteStep, Settling,
};
use kxen_core::knowledge::consolidate::lease::{try_acquire, validate, PassGate, Registry};
use kxen_core::knowledge::consolidate::pass::{
    opening, pending_metering_operation_ids, prepare_new_attempt, since, ConsolidationResult, Generated, GoalFocus,
    Metering, Origin, ReadFailure, Removal, RuntimeBudget, SessionRun, Snapshot, Step,
};
use kxen_core::knowledge::consolidate::recovery::{
    blocked_attempts, settle_for_discard_leased, AckStep, Acknowledgement, DiscardStep,
};
use kxen_core::knowledge::consolidate::settlement::SettleStep;
use kxen_core::knowledge::consolidate::state::State;
use kxen_core::knowledge::consolidate::steps::metering_request;
use kxen_core::knowledge::distill::NewNote;
use kxen_core::llm::managed::{ManagedError, ManagedErrorKind, ManagedOutput, TokenUsage};
use kxen_core::session::{Message, Part, Session};

fn attempt(id: &str) -> Attempt {
    Attempt {
        session_id: id.into(),
        updated_at: 42,
        message_revision: Some(4),
        message_cursor: Some("cursor-4".into()),
        workdir: "/tmp/project".into(),
        operation_id: "meter_test".into(),
        goal_id: None,
        usage: None,
        unmetered_call: false,
        metering_warning: None,
        metering_ack: false,
        status: AttemptStatus::ProviderResultUnknown,
        reason: Some(Attempt::new_blocked_reason()),
        notes: None,
        next_note: 0,
    }
}

fn note(description: &str) -> NewNote {
    NewNote {
        scope: "personal".into(),
        note_type: "pitfall".into(),
        description: description.into(),
        content: "resume without another model call".into(),
    }
}

fn session(id: &str) -> Session {
    Session { id: id.into(), updated_at: 9, message_revision: 2, directory: "/tmp/work".into() }
}

fn say(text: &str) -> Message {
    Message { parts: vec![Part::Text { text: text.into() }] }
}

fn metered() -> Result<Metering, String> {
    Ok(Metering { durability_warnings: Vec::new(), stop_message: None })
}

fn at_attempt(id: &str, state: State) -> SessionRun {
    let mut run = SessionRun::start(id, 0);
    run.on_tombstone(Ok(false));
    run.on_state(Ok(state));
    assert_eq!(run.step, Step::LoadAttempt);
    run
}

fn at_generate(id: &str) -> SessionRun {
    let mut run = at_attempt(id, State::new());
    run.on_attempt(Ok(None), "path");
    let snapshot =
        Snapshot { meta: session(id), messages: vec![say("first"), say("second")], cursor: "cursor-2".into() };
    run.on_snapshot(Ok(snapshot), "meter_1".into());
    run.on_goal(Ok(None));
    run.on_gone(Ok(false));
    run.on_routed(Ok(()));
    run.on_claimed(Ok(()));
    assert_eq!(run.step, Step::Generate);
    run
}

fn reply(result: Result<Vec<NewNote>, String>, request_started: bool) -> Generated {
    Generated { result, request_started, usage: None, unmetered_call: false, metering_warning: None }
}

#[test]
fn overlapping_pass_gate_is_released_on_drop() {
    let mut gate = PassGate::new();
    let first = gate.try_acquire_pass().expect("first pass");
    assert!(gate.try_acquire_pass().is_none(), "overlapping pass must be skipped");
    gate.release(first);
    assert!(gate.try_acquire_pass().is_some(), "completed pass must let the next one in");
}

#[test]
fn same_session_waits_while_different_session_progresses() {
    let mut registry = Registry::new();
    let first = try_acquire(&mut registry, "ses_1", Ok(())).unwrap();
    assert!(try_acquire(&mut registry, "ses_1", Ok(())).unwrap_err().contains("active"));
    let other = try_acquire(&mut registry, "ses_2", Ok(())).unwrap();
    registry.release(other);
    registry.release(first);
    let again = try_acquire(&mut registry, "ses_1", Ok(())).unwrap();
    assert_eq!(again.session_id(), "ses_1");
    assert!(validate(&again, "ses_1").is_ok());
    assert_eq!(
        validate(&again, "ses_2"),
        Err("consolidation lease ses_1 does not match session ses_2".into())
    );
    assert_eq!(try_acquire(&mut registry, "../x", Err("bad id".into())).unwrap_err(), "bad id");
}

#[test]
fn checkpoint_reloads_before_merge_and_never_regresses() {
    let mut state = State::new();
    assert!(state.checkpoint_cursor("s1", 7, "cursor-7"));
    assert!(state.checkpoint_cursor("s2", 9, "cursor-9"));
    assert!(!state.checkpoint_cursor("s1", 3, "cursor-3"));
    assert!(state.checkpoint_cursor("s1", 7, "cursor-7-rewrite"));
    assert_eq!(state.revision("s1"), 7);
    assert_eq!(state.revision("s2"), 9);
    assert!(state.cursor_is("s1", "cursor-7-rewrite"));
    assert!(state.remove_session("s1"));
    assert!(!state.distilled.contains("s1"));
    assert!(!state.message_revisions.contains("s1"));
    assert!(!state.message_cursors.contains("s1"));
    assert!(!state.remove_session("s1"));
}

#[test]
fn changed_cursor_bypasses_stale_timestamp_after_first_checkpoint() {
    let mut checkpoint = State::new();
    assert!(!checkpoint.snapshot_is_eligible("s", "cursor-new", 1, 2));
    checkpoint.message_revisions.insert("s", 4);
    checkpoint.message_cursors.insert("s", "cursor-old".into());
    assert!(checkpoint.snapshot_is_eligible("s", "cursor-new", 1, 2));
    assert!(!checkpoint.snapshot_is_eligible("s", "cursor-old", 1, 2));
}

#[test]
fn message_revision_cas_leaves_concurrent_append_for_next_round() {
    let messages = vec![say("first"), say("second")];
    let prepared = prepare_new_attempt(&session("s"), &messages, "cursor-2".into(), "meter".into()).unwrap();
    assert_eq!(prepared.attempt.message_revision, Some(2));
    assert_eq!(prepared.transcript, vec!["first", "second"]);
    let mut state = State::new();
    state.checkpoint_cursor("s", 2, "cursor-2");
    assert_eq!(state.revision("s"), 2);
    assert!(state.snapshot_is_eligible("s", "cursor-3", 0, u64::MAX));
}

#[test]
fn cursor_detects_rewrite_committed_before_revision_meta() {
    let mut state = State::new();
    state.checkpoint_cursor("s", 2, "before");
    assert!(!state.cursor_is("s", "after"));
    assert!(state.snapshot_is_eligible("s", "after", 0, u64::MAX));
}

#[test]
fn transcript_joins_parts_and_drops_empty_messages() {
    let mixed = Message {
        parts: vec![
            Part::Text { text: "a".into() },
            Part::Other,
            Part::Context { text: "b".into() },
        ],
    };
    let messages = vec![mixed, Message { parts: vec![Part::Other] }, say("c")];
    let prepared = prepare_new_attempt(&session("s"), &messages, "k".into(), "m".into()).unwrap();
    assert_eq!(prepared.transcript, vec!["a\nb", "c"]);
    assert!(prepare_new_attempt(&session("s"), &Vec::new(), "k".into(), "m".into()).is_none());
    let long: Vec<Message> = (0..25).map(|i| say(&format!("m{i}"))).collect();
    let prepared = prepare_new_attempt(&session("s"), &long, "k".into(), "m".into()).unwrap();
    assert_eq!(prepared.transcript.len(), 20);
    assert_eq!(prepared.transcript[0], "m5");
}

#[test]
fn automatic_pass_never_retries_a_blocked_provider_attempt() {
    let mut run = at_attempt("s", State::new());
    run.on_attempt(Ok(Some(attempt("s"))), "path");
    assert_eq!(run.step, Step::Meter(Origin::Resumed));
    let charge = metering_request(run.attempt.as_ref().unwrap());
    assert!(charge.measured.is_none() && charge.unmetered);
    run.on_metered(metered());
    run.on_persisted(Ok(()));
    assert_eq!(run.step, Step::Done);
    let blocked = run.attempt.as_ref().unwrap();
    assert!(blocked.is_blocked() && blocked.metering_ack);
    assert!(blocked.reason().contains("自动重试已停止"));
    assert!(run.diagnostics.iter().any(|line| line.contains("consolidation BLOCKED")));
}

#[test]
fn checkpointed_cleanup_settles_unknown_before_removing_attempt() {
    let mut state = State::new();
    state.checkpoint_cursor("s", 4, "cursor-4");
    let mut run = at_attempt("s", state);
    run.on_attempt(Ok(Some(attempt("s"))), "path");
    assert_eq!(run.step, Step::Meter(Origin::Completed));
    run.on_metered(metered());
    run.on_persisted(Ok(()));
    assert_eq!(run.step, Step::EnsureDurable(Removal::Completed));
    run.on_durable(Ok(()));
    assert_eq!(run.step, Step::Remove(Removal::Completed));
    run.on_removed(Ok(()));
    assert_eq!(run.step, Step::Done);
    assert!(run.diagnostics.is_empty());
}

#[test]
fn fresh_session_runs_from_claim_to_removal() {
    let mut run = at_generate("s");
    assert_eq!(run.timeout_ms, 8_000);
    run.on_generated(Generated {
        result: Ok(vec![note("one"), note("two")]),
        request_started: true,
        usage: Some(TokenUsage { input: 3, output: 4 }),
        unmetered_call: false,
        metering_warning: Some("clock skew".into()),
    });
    run.on_persisted(Ok(()));
    run.on_metered(Ok(Metering { durability_warnings: vec!["w".into()], stop_message: Some("stop".into()) }));
    run.on_persisted(Ok(()));
    run.on_tombstone(Ok(false));
    run.on_note(Ok(None));
    run.on_cursor_saved(Ok(()));
    run.on_note(Ok(None));
    run.on_cursor_saved(Ok(()));
    run.on_cursor_read(Ok(2));
    run.on_checkpointed(Ok(true));
    run.on_removed(Ok(()));
    assert_eq!(run.step, Step::Done);
    assert_eq!(run.written, 2);
    assert_eq!(
        run.diagnostics,
        vec![
            "session s metering durability repaired: w",
            "session s Provider metering degraded: clock skew",
            "session s goal stopped after consolidation charge: stop",
        ]
    );
    let mut result = ConsolidationResult::empty();
    result.absorb(run);
    assert_eq!((result.written, result.diagnostics.len()), (2, 3));
}

#[test]
fn resume_uses_durable_cursor_and_deterministic_note_paths() {
    let mut current = attempt("s");
    current.record_notes(Vec::new());
    current.metering_ack = true;
    let mut run = at_attempt("s", State::new());
    run.on_attempt(Ok(Some(current)), "path");
    assert_eq!(run.step, Step::LateTombstone);
    run.on_tombstone(Ok(false));
    assert_eq!((run.step, run.written), (Step::ReadCursor, 0));
}

#[test]
fn failures_of_the_call_are_told_apart_by_whether_it_started() {
    let mut run = at_generate("s");
    run.on_generated(reply(Err("boom".into()), false));
    assert_eq!(run.step, Step::Remove(Removal::Unstarted));
    run.on_removed(Err(PersistFailure::before("disk".into())));
    assert_eq!(
        run.diagnostics,
        vec!["session s unused consolidation claim cleanup failed: disk", "session s distillation failed: boom"]
    );

    let mut run = at_generate("s");
    run.on_generated(reply(Err("boom".into()), true));
    assert_eq!(run.step, Step::PersistStatus(Origin::FailedCall));
    run.on_persisted(Err(PersistFailure::after("sync".into())));
    assert_eq!(run.step, Step::RepairStatus(Origin::FailedCall));
    run.on_persisted(Err(PersistFailure::after("again".into())));
    assert_eq!(
        run.diagnostics,
        vec![
            "session s failed Provider result metering is BLOCKED: attempt was visible but durability repair failed: sync; again",
            "session s distillation failed: boom",
        ]
    );
    assert!(run.attempt.unwrap().reason().contains("请求已经开始并失败"));
}

#[test]
fn claims_are_repaired_once_and_then_given_up() {
    let mut run = at_attempt("s", State::new());
    run.on_attempt(Ok(None), "path");
    let snapshot = Snapshot { meta: session("s"), messages: vec![say("a"), say("b")], cursor: "c".into() };
    run.on_snapshot(Ok(snapshot), "meter".into());
    run.on_goal(Ok(Some(GoalFocus { id: "g".into(), budget: RuntimeBudget::WallRemaining(500) })));
    assert_eq!(run.timeout_ms, 500);
    run.on_gone(Ok(false));
    run.on_routed(Ok(()));
    run.on_claimed(Err(PersistFailure::after("sync".into())));
    run.on_persisted(Err(PersistFailure::after("once".into())));
    assert_eq!(run.step, Step::RepairClaimAgain);
    run.on_persisted(Err(PersistFailure::before("twice".into())));
    assert_eq!(
        run.diagnostics,
        vec!["session s consolidation claim durability is indeterminate: sync; attempt was visible but durability repair failed: once; twice"]
    );
}

#[test]
fn sessions_that_cannot_be_read_end_their_run() {
    let mut run = SessionRun::start("s", 0);
    run.on_tombstone(Err("io".into()));
    assert_eq!(run.diagnostics, vec!["session s deletion state unavailable: io"]);
    let mut run = SessionRun::start("s", 0);
    run.on_tombstone(Ok(true));
    assert!(run.step == Step::Done && run.diagnostics.is_empty());
    let mut run = at_attempt("s", State::new());
    run.on_attempt(Err("bad".into()), "path");
    assert_eq!(run.diagnostics, vec!["session s consolidation state BLOCKED: bad"]);
    let mut run = at_attempt("s", State::new());
    run.on_attempt(Ok(None), "path");
    run.on_snapshot(Err(ReadFailure::Denied), "m".into());
    assert!(run.step == Step::Done && run.diagnostics.is_empty());
    let mut run = at_attempt("s", State::new());
    run.on_attempt(Ok(None), "path");
    run.on_snapshot(Err(ReadFailure::Other("gone".into())), "m".into());
    assert_eq!(run.diagnostics, vec!["session s history unavailable: gone"]);
}

#[test]
fn revision_that_fell_behind_blocks_the_checkpoint() {
    let mut current = attempt("s");
    current.record_notes(Vec::new());
    current.metering_ack = true;
    let mut run = at_attempt("s", State::new());
    run.on_attempt(Ok(Some(current)), "path");
    run.on_tombstone(Ok(false));
    run.on_cursor_read(Ok(3));
    assert_eq!(run.diagnostics, vec!["session s revision regressed from attempt 4 to 3; consolidation is BLOCKED"]);
}

#[test]
fn pass_opens_only_with_state_and_catalog() {
    assert_eq!(since(5), 0);
    assert_eq!(since(86_400_001), 1);
    let broken = opening(Err("corrupt".into()), Ok(Vec::new())).unwrap_err();
    assert_eq!(broken.diagnostics, vec!["corrupt"]);
    let broken = opening(Ok(()), Err("io".into())).unwrap_err();
    assert_eq!(broken.diagnostics, vec!["session catalog unavailable: io"]);
    assert_eq!(opening(Ok(()), Ok(vec![session("s")])).unwrap().len(), 1);
}

#[test]
fn startup_compaction_preserves_a_knowledge_receipt_until_attempt_ack() {
    let found = vec![(Some(attempt("a")), Ok(())), (None, Ok(())), (Some(attempt("a")), Ok(()))];
    assert_eq!(pending_metering_operation_ids(&found), Ok(vec!["meter_test".to_string()]));
    let refused = vec![(Some(attempt("a")), Err("bad id".to_string()))];
    assert_eq!(pending_metering_operation_ids(&refused), Err("bad id".to_string()));
}

#[test]
fn malformed_or_symlinked_marker_fails_closed() {
    assert_eq!(
        check_loaded(attempt("a"), "b", "p").unwrap_err(),
        "consolidation attempt identity mismatch: expected \"b\", found \"a\""
    );
    let mut current = attempt("a");
    current.notes = Some(Vec::new());
    current.next_note = 1;
    assert_eq!(check_loaded(current, "a", "p").unwrap_err(), "consolidation attempt cursor is invalid: p");
    assert!(check_loaded(attempt("a"), "a", "p").is_ok());
}

#[test]
fn attempt_directory_entries_are_read_strictly() {
    assert_eq!(entry_session("ses_1.json", "p"), Ok(Some("ses_1".into())));
    assert_eq!(entry_session(".ses_1.abc.tmp", "p"), Ok(None));
    assert_eq!(entry_session("stray.txt", "/d/stray.txt"), Err("unexpected consolidation attempt entry: /d/stray.txt".into()));
}

#[test]
fn blocked_attempt_is_listed_but_active_owner_is_not() {
    let mut done = attempt("b");
    done.record_notes(Vec::new());
    let found = vec![(true, Some(attempt("a"))), (true, Some(done)), (false, Some(attempt("c"))), (true, None)];
    let shown = blocked_attempts(&found);
    assert_eq!(shown.len(), 1);
    assert_eq!(shown[0].session_id, "a");
    assert_eq!(shown[0].status, "provider_result_unknown");
    assert!(shown[0].usage_unknown && !shown[0].metering_settled);
}

#[test]
fn explicit_acknowledgement_skips_old_cursor_and_allows_a_new_cursor() {
    let mut registry = Registry::new();
    let lease = try_acquire(&mut registry, "s", Ok(())).unwrap();
    let mut ack = Acknowledgement::open(&lease, "s", Ok(Some(attempt("s"))), "p").unwrap();
    ack.on_metered(metered());
    ack.on_persisted(Ok(()));
    assert_eq!(ack.step, AckStep::Checkpoint);
    let (revision, cursor) = ack.settlement.attempt.checkpoint_target().unwrap();
    let mut state = State::new();
    assert!(state.checkpoint_cursor("s", revision, &cursor));
    ack.on_checkpointed(Ok(true));
    ack.on_removed(Ok(()));
    let result = ack.result().unwrap();
    assert!(result.usage_unknown_recorded);
    assert_eq!(result.checkpointed_revision, Some(4));
    assert!(!state.snapshot_is_eligible("s", "cursor-4", 9, 0));
    assert!(state.snapshot_is_eligible("s", "cursor-5", 9, 0));
}

#[test]
fn legacy_acknowledgement_does_not_checkpoint_messages_added_after_the_attempt() {
    let mut registry = Registry::new();
    let lease = try_acquire(&mut registry, "s", Ok(())).unwrap();
    let mut current = attempt("s");
    current.message_revision = None;
    current.message_cursor = None;
    let mut ack = Acknowledgement::open(&lease, "s", Ok(Some(current)), "p").unwrap();
    ack.on_metered(metered());
    ack.on_persisted(Ok(()));
    assert_eq!(ack.step, AckStep::Remove);
    ack.on_removed(Ok(()));
    assert_eq!(ack.result().unwrap().checkpointed_revision, None);
}

#[test]
fn settlement_and_checkpoint_failures_keep_the_attempt_blocked() {
    let mut registry = Registry::new();
    let lease = try_acquire(&mut registry, "s", Ok(())).unwrap();
    let mut ack = Acknowledgement::open(&lease, "s", Ok(Some(attempt("s"))), "p").unwrap();
    ack.on_metered(Err("injected usage failure".into()));
    assert!(ack.result().unwrap_err().contains("usage failure"));
    let mut ack = Acknowledgement::open(&lease, "s", Ok(Some(attempt("s"))), "p").unwrap();
    ack.on_metered(metered());
    ack.on_persisted(Ok(()));
    ack.on_checkpointed(Err("sync".into()));
    assert_eq!(ack.result().unwrap_err(), "session s UNKNOWN checkpoint failed: sync");
}

#[test]
fn acknowledgement_refuses_what_is_not_blocked() {
    let mut registry = Registry::new();
    let lease = try_acquire(&mut registry, "s", Ok(())).unwrap();
    assert!(Acknowledgement::open(&lease, "t", Ok(None), "p").is_err());
    assert!(matches!(
        Acknowledgement::open(&lease, "s", Ok(None), "p"),
        Err(e) if e == "session s has no blocked consolidation attempt"
    ));
    let mut done = attempt("s");
    done.record_notes(Vec::new());
    assert!(matches!(
        Acknowledgement::open(&lease, "s", Ok(Some(done)), "p"),
        Err(e) if e == "session s consolidation result is already recorded"
    ));
}

#[test]
fn discard_settlement_is_durable_and_restart_idempotent_without_provider_retry() {
    let mut registry = Registry::new();
    let lease = try_acquire(&mut registry, "s", Ok(())).unwrap();
    let mut settlement = settle_for_discard_leased(&lease, "s", Ok(Some(attempt("s"))), "p").unwrap().unwrap();
    assert_eq!(settlement.step, SettleStep::Meter);
    settlement.on_metered(metered());
    settlement.on_persisted(Ok(()));
    assert_eq!(settlement.step, SettleStep::Settled);
    let again = settle_for_discard_leased(&lease, "s", Ok(Some(settlement.attempt)), "p").unwrap().unwrap();
    assert_eq!(again.step, SettleStep::Settled);
}

#[test]
fn discard_repairs_visible_attempt_removal_sync_failure() {
    let mut registry = Registry::new();
    let (lease, mut discard) = discard_for_session(&mut registry, "s", Ok(())).unwrap();
    discard.on_loaded(Ok(None), "p");
    discard.on_removed(Err(PersistFailure::after("sync".into())));
    assert_eq!(discard.step, DiscardStep::RemoveAgain);
    discard.on_removed(Ok(()));
    assert_eq!(discard.step, DiscardStep::ForgetSession);
    registry.release(lease);
    let (_, mut discard) = discard_for_session(&mut registry, "s", Ok(())).unwrap();
    discard.on_loaded(Ok(None), "p");
    discard.on_removed(Err(PersistFailure::after("sync".into())));
    discard.on_removed(Err(PersistFailure::before("still".into())));
    assert_eq!(
        discard.error.as_deref(),
        Some("attempt removal was visible but durability repair failed: sync; still")
    );
}

#[test]
fn discard_removes_attempt_and_watermark() {
    let mut registry = Registry::new();
    let mut state = State::new();
    assert!(state.checkpoint_cursor("s", 4, "cursor-4"));
    let (_, mut discard) = discard_for_session(&mut registry, "s", Ok(())).unwrap();
    discard.on_loaded(Ok(Some(attempt("s"))), "p");
    discard.on_metered(metered());
    discard.on_persisted(Ok(()));
    assert_eq!(discard.step, DiscardStep::Remove);
    discard.on_removed(Ok(()));
    assert_eq!(discard.step, DiscardStep::ForgetSession);
    state.remove_session("s");
    discard.on_forgotten(Ok(()));
    assert_eq!(discard.result(), Ok(()));
    assert!(!state.distilled.contains("s"));
    assert!(!state.message_revisions.contains("s"));
    assert!(!state.message_cursors.contains("s"));
}

#[test]
fn discard_settles_before_it_removes() {
    let mut registry = Registry::new();
    let (lease, mut discard) = discard_for_session(&mut registry, "s", Ok(())).unwrap();
    assert_eq!(discard.step, DiscardStep::Load);
    discard.on_loaded(Ok(Some(attempt("s"))), "p");
    assert_eq!(discard.step, DiscardStep::Settle);
    discard.on_metered(metered());
    assert_eq!(discard.step, DiscardStep::Settle);
    discard.on_persisted(Ok(()));
    assert_eq!(discard.step, DiscardStep::Remove);
    assert!(discard.settlement.as_ref().unwrap().attempt.metering_ack);
    discard.on_removed(Ok(()));
    discard.on_forgotten(Err("disk".into()));
    assert_eq!(discard.result(), Err("disk".to_string()));

    let mut unpaid = discard_for_session_leased(&lease, "s").unwrap();
    unpaid.on_loaded(Ok(Some(attempt("s"))), "p");
    unpaid.on_metered(Err("ledger".into()));
    assert_eq!(unpaid.step, DiscardStep::Done);
    assert_eq!(unpaid.result(), Err("ledger".to_string()));

    let mut other = discard_for_session_leased(&lease, "s").unwrap();
    other.on_loaded(Ok(Some(attempt("t"))), "p");
    assert!(other.result().unwrap_err().contains("identity mismatch"));
    assert!(discard_for_session_leased(&lease, "t").is_err());
}

#[test]
fn deletion_finishes_an_older_attempt_before_its_own() {
    let mut registry = Registry::new();
    let lease = try_acquire(&mut registry, "s", Ok(())).unwrap();
    let request = DeleteDistillRequest {
        lease: &lease,
        meta: Session { id: "s".into(), updated_at: 9, message_revision: 6, directory: "/w".into() },
        transcript: vec!["a".into()],
        message_cursor: "cursor-6".into(),
        timeout_ms: 1_000,
        goal_id: None,
    };
    let mut run = run_for_delete(request).unwrap();
    run.on_state(Ok(State::new()));
    let mut older = attempt("s");
    older.record_notes(vec![note("kept")]);
    run.on_attempt(Ok(Some(older)), "p", "meter_x".into());
    assert_eq!(run.step, DeleteStep::Settle(Settling::Resumed));
    run.on_metered(metered());
    run.on_settlement_persisted(Ok(()));
    assert_eq!(run.step, DeleteStep::AddNote);
    run.on_note(Ok(None));
    run.on_cursor_saved(Ok(()));
    run.on_checkpointed(Ok(true));
    assert_eq!(run.step, DeleteStep::RemoveFinished);
    assert!(run.state.cursor_is("s", "cursor-4"));
    run.on_removed(Ok(()));
    assert_eq!(run.step, DeleteStep::LoadState);
    let mut state = State::new();
    state.checkpoint_cursor("s", 4, "cursor-4");
    run.on_state(Ok(state));
    run.on_attempt(Ok(None), "p", "meter_y".into());
    run.on_claimed(Ok(()));
    run.on_generated(reply(Ok(Vec::new()), true));
    run.on_settlement_persisted(Ok(()));
    run.on_metered(metered());
    run.on_settlement_persisted(Ok(()));
    run.on_checkpointed(Ok(true));
    run.on_removed(Ok(()));
    assert_eq!(run.step, DeleteStep::Done);
    assert!(run.state.cursor_is("s", "cursor-6"));
    assert_eq!(run.result().unwrap().written, 1);
}

#[test]
fn deletion_does_not_repeat_a_blocked_call() {
    let mut registry = Registry::new();
    let lease = try_acquire(&mut registry, "s", Ok(())).unwrap();
    let request = DeleteDistillRequest {
        lease: &lease,
        meta: Session { id: "s".into(), updated_at: 9, message_revision: 6, directory: "/w".into() },
        transcript: Vec::new(),
        message_cursor: "cursor-6".into(),
        timeout_ms: 1_000,
        goal_id: None,
    };
    let mut run = run_for_delete(request).unwrap();
    run.on_state(Ok(State::new()));
    run.on_attempt(Ok(Some(attempt("s"))), "p", "meter_x".into());
    run.on_metered(metered());
    run.on_settlement_persisted(Ok(()));
    let error = run.result().unwrap_err();
    assert!(error.contains("distillation is BLOCKED"), "{error}");
}

#[test]
fn what_a_call_came_to_decides_how_it_is_charged() {
    let nothing = Generated::nothing();
    assert!(matches!(nothing.result, Ok(notes) if notes.is_empty()));
    assert!(!nothing.request_started && !nothing.unmetered_call && nothing.usage.is_none());
    let error = |started: bool, reported: bool| ManagedError {
        kind: ManagedErrorKind::Provider,
        message: "broke".into(),
        request_started: started,
        usage_reported: reported,
        usage: None,
        metering_warning: Some("w".into()),
    };
    let failed = Generated::failed(error(true, false));
    assert!(failed.request_started && failed.unmetered_call);
    assert_eq!(failed.metering_warning.as_deref(), Some("w"));
    assert!(matches!(failed.result, Err(e) if e == "broke"));
    assert!(!Generated::failed(error(false, false)).unmetered_call);
    assert!(!Generated::failed(error(true, true)).unmetered_call);
    let usage = Some(TokenUsage { input: 1, output: 2 });
    let output = |usage: Option<TokenUsage>| ManagedOutput { text: "[]".into(), usage, metering_warning: None };
    let answered = Generated::answered(output(usage), Ok(vec![note("n")]));
    assert!(answered.request_started && !answered.unmetered_call && answered.usage == usage);
    assert!(Generated::answered(output(None), Err("no array".into())).unmetered_call);
}
