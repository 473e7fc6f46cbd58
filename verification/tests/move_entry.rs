use kxen_core::knowledge::store::guard::{
    check_directory, check_inside, descent, passage, passages, presence, Seen,
};
use kxen_core::knowledge::store::move_entry::{
    check_entry, check_identity, check_paths, check_request, claim_name, destination_taken, end_to_check, locate_claim,
    staging_path, staging_taken, target_of, validate_relative, MoveClaim, Outcome, Stage, Work, CLAIM_VERSION,
};
use kxen_core::knowledge::store::paths::{join_path, same_path, strip_base};
use kxen_core::knowledge::store::tree::{equivalent, Tree};
use kxen_core::knowledge::Scope;

fn claim() -> MoveClaim {
    let destination = "/h/.agents/notes/note.md";
    MoveClaim {
        version: CLAIM_VERSION,
        transaction_id: "move_test".into(),
        workspace: "/w".into(),
        scope: Scope::Project,
        to: Scope::Personal,
        requested_slug: "a note".into(),
        entry_slug: "note".into(),
        source_root: "/w/.agents".into(),
        destination_root: "/h/.agents".into(),
        relative: "notes/note.md".into(),
        source: "/w/.agents/notes/note.md".into(),
        destination: destination.into(),
        staging: staging_path(destination, "move_test").unwrap(),
    }
}

/// What lies on a disk, and which steps fail on it.
struct Disk {
    source: bool,
    destination: bool,
    staging: bool,
    record: bool,
    same: bool,
    fail: Option<Work>,
    done: Vec<Work>,
}

fn disk() -> Disk {
    Disk { source: true, destination: false, staging: false, record: true, same: true, fail: None, done: vec![] }
}

fn answer(yes: bool) -> Outcome {
    if yes {
        Outcome::Yes
    } else {
        Outcome::No
    }
}

impl Disk {
    fn perform(&mut self, work: Work) -> Outcome {
        self.done.push(work);
        if self.fail == Some(work) {
            self.fail = None;
            if work == Work::SyncClaims {
                self.record = false;
            }
            return Outcome::Failed("injected".into());
        }
        match work {
            Work::SourceThere | Work::FinalSource => answer(self.source),
            Work::DestinationThere { .. } | Work::FinalDestination => answer(self.destination),
            Work::Compare | Work::CompareStaging => answer(self.same),
            Work::StagingThere => answer(self.staging),
            Work::Rename => {
                self.source = false;
                self.destination = true;
                Outcome::Yes
            }
            Work::DiscardStaging => {
                self.staging = false;
                Outcome::Yes
            }
            Work::CopySource => {
                self.staging = true;
                Outcome::Yes
            }
            Work::Publish { .. } => {
                self.staging = false;
                self.destination = true;
                Outcome::Yes
            }
            Work::TrashSource => {
                self.source = false;
                Outcome::Yes
            }
            Work::RemoveClaim => {
                let there = self.record;
                self.record = false;
                answer(there)
            }
            _ => Outcome::Yes,
        }
    }

    fn execute(&mut self, copy: bool) -> Result<String, String> {
        let claim = claim();
        let mut stage = Stage::start();
        for _ in 0..40 {
            let outcome = match stage {
                Stage::Done(result) => return result,
                Stage::Work(work) => self.perform(work),
                Stage::RestoreClaim(_) => {
                    self.record = true;
                    Outcome::Yes
                }
            };
            stage = stage.advance(outcome, &claim, "/data/claim.json", copy);
        }
        panic!("the move does not end")
    }
}

#[test]
fn a_rename_moves_and_drops_the_record() {
    let mut disk = disk();
    assert_eq!(disk.execute(false).unwrap(), "/h/.agents/notes/note.md");
    assert!(!disk.source && disk.destination && !disk.record);
}

#[test]
fn copy_publish_recovers_after_destination_becomes_visible() {
    let mut disk = disk();
    disk.fail = Some(Work::TrashSource);
    assert!(disk.execute(true).unwrap_err().contains("injected"));
    assert!(disk.source && disk.destination && disk.record);
    assert_eq!(disk.execute(true).unwrap(), "/h/.agents/notes/note.md");
    assert!(!disk.source);
    assert!(!disk.record);
}

#[test]
fn retry_resyncs_both_parents_before_removing_claim() {
    for failing in [Work::MovedDestination, Work::MovedSource, Work::DurableDestination, Work::DurableSource] {
        let mut disk = disk();
        disk.fail = Some(failing);
        assert!(disk.execute(false).is_err());
        assert!(disk.record, "{failing:?}");
        assert!(!disk.source && disk.destination);
        disk.done.clear();
        disk.execute(false).unwrap();
        assert!(!disk.record);
        let at = |w: Work| disk.done.iter().position(|d| *d == w).unwrap();
        assert!(at(Work::DurableDestination) < at(Work::RemoveClaim));
        assert!(at(Work::DurableSource) < at(Work::RemoveClaim));
    }
}

#[test]
fn claim_parent_sync_failure_restores_retry_record() {
    let mut disk = disk();
    disk.fail = Some(Work::SyncClaims);
    let error = disk.execute(false).unwrap_err();
    assert!(error.contains("claim restored for retry"), "{error}");
    assert!(disk.record);
    assert!(!disk.source && disk.destination);
    assert_eq!(disk.execute(false).unwrap(), "/h/.agents/notes/note.md");
    assert!(!disk.record);
}

#[test]
fn a_stale_copy_is_replaced_and_a_good_one_published() {
    let mut stale = disk();
    stale.staging = true;
    stale.same = false;
    stale.execute(true).unwrap();
    assert!(stale.done.contains(&Work::DiscardStaging) && stale.done.contains(&Work::CopySource));
    let mut good = disk();
    good.staging = true;
    good.execute(true).unwrap();
    assert!(!good.done.contains(&Work::CopySource));
    assert!(good.done.contains(&Work::Publish { recovered: true }));
}

#[test]
fn conflicts_and_losses_block() {
    let mut differ = disk();
    differ.destination = true;
    differ.same = false;
    assert_eq!(differ.execute(false).unwrap_err(), "knowledge move is BLOCKED: source and destination differ");
    assert!(differ.source && differ.destination && differ.record);
    let mut gone = disk();
    gone.source = false;
    assert_eq!(
        gone.execute(false).unwrap_err(),
        "knowledge move is BLOCKED: both source and destination are missing"
    );
    let mut failing = disk();
    failing.fail = Some(Work::Rename);
    assert_eq!(failing.execute(false).unwrap_err(), "move /w/.agents/notes/note.md: injected");
    let stage = Stage::RestoreClaim("fsync".into()).advance(Outcome::Failed("disk".into()), &claim(), "/c", false);
    assert!(matches!(
        stage,
        Stage::Done(Err(e))
            if e == "knowledge move claim removal durability is BLOCKED: fsync; claim restore failed: disk"
    ));
}

#[test]
fn private_claim_with_parent_escape_is_rejected() {
    let mut escape = claim();
    escape.relative = "../outside.md".into();
    escape.destination = "/h/.agents/../outside.md".into();
    let error = check_paths(&escape, "/w/.agents", "/h/.agents").unwrap_err();
    assert!(error.contains("relative path is invalid"), "{error}");
    for bad in ["", "/etc/passwd", "./a", "a/../b", ".."] {
        assert_eq!(validate_relative(bad).unwrap_err(), format!("knowledge move relative path is invalid: {bad}"));
    }
    for good in ["a", "a/b.md", "a//b", "a/./b"] {
        assert!(validate_relative(good).is_ok(), "{good}");
    }
}

#[test]
fn project_supplied_claim_cannot_move_a_different_personal_entry() {
    let mut stolen = claim();
    stolen.source = "/w/.agents/notes/private.md".into();
    assert_eq!(
        check_paths(&stolen, "/w/.agents", "/h/.agents").unwrap_err(),
        "knowledge move claim paths do not match their exact derived identity"
    );
    assert!(check_paths(&claim(), "/w/.agents", "/h/.agents").is_ok());
    assert_eq!(
        check_entry(&claim(), true, "private", "/w/.agents/notes/note.md").unwrap_err(),
        "knowledge move claim source is not the requested slug entry"
    );
    assert_eq!(
        check_entry(&claim(), false, "note", "/h/.agents/notes/other.md").unwrap_err(),
        "knowledge move claim destination is not the requested slug entry"
    );
    assert!(check_entry(&claim(), true, "note", "/w/.agents/notes/note.md").is_ok());
}

#[test]
fn the_source_is_looked_at_as_long_as_it_is_there() {
    let claim = claim();
    assert_eq!(end_to_check(&claim, true, true), Some((true, claim.scope)));
    assert_eq!(end_to_check(&claim, true, false), Some((true, claim.scope)));
    assert_eq!(end_to_check(&claim, false, true), Some((false, claim.to)));
    assert_eq!(end_to_check(&claim, false, false), None);
}

#[test]
fn records_speak_for_one_move() {
    let check = |c: &MoveClaim, ws: &str, slug: &str| {
        check_identity(c, Ok(()), ws, Scope::Project, Scope::Personal, slug)
    };
    assert!(check(&claim(), "/w", "note").is_ok());
    assert!(check(&claim(), "/w/", "a note").is_ok());
    assert_eq!(
        check(&claim(), "/other", "note").unwrap_err(),
        "knowledge move claim identity does not match the requested workspace/scopes"
    );
    assert_eq!(
        check(&claim(), "/w", "another").unwrap_err(),
        "knowledge move claim does not match the requested slug"
    );
    let mut old = claim();
    old.version = 1;
    assert_eq!(check(&old, "/w", "note").unwrap_err(), "unsupported knowledge move claim version 1");
    assert_eq!(
        check_identity(&claim(), Err("bad id".into()), "/w", Scope::Project, Scope::Personal, "note").unwrap_err(),
        "bad id"
    );
}

#[test]
fn records_are_found_by_either_slug() {
    let mut other = claim();
    other.entry_slug = "other".into();
    other.requested_slug = "other".into();
    let claims = vec![other, claim()];
    let find = |claims: &Vec<MoveClaim>, slug: &str| {
        locate_claim(claims, "/w", Scope::Project, Scope::Personal, slug)
    };
    assert_eq!(find(&claims, "a note"), Ok(Some(1)));
    assert_eq!(find(&claims, "nobody"), Ok(None));
    assert_eq!(
        find(&vec![claim(), claim()], "note").unwrap_err(),
        "knowledge move is BLOCKED: multiple private claims match note"
    );
    assert_eq!(locate_claim(&claims, "/w", Scope::Personal, Scope::Project, "note"), Ok(None));
    let name = claim_name("/w", Scope::Project, Scope::Personal, "note");
    assert_eq!(name.len(), 64 + 5);
    assert!(name.ends_with(".json"));
    assert_ne!(name, claim_name("/w", Scope::Personal, Scope::Project, "note"));
}

#[test]
fn a_new_record_is_accepted_again() {
    let target = target_of("/w/.agents/notes/note.md", "/w/.agents", "/h/.agents").unwrap();
    assert_eq!(target.relative, "notes/note.md");
    assert_eq!(target.destination, "/h/.agents/notes/note.md");
    assert_eq!(
        staging_path(&target.destination, "tx").unwrap(),
        "/h/.agents/notes/.note.md.tx.kxen-move"
    );
    assert_eq!(staging_path("/", "tx").unwrap_err(), "destination has no UTF-8 name");
    assert_eq!(
        target_of("/x/note.md", "/w/.agents", "/h").err().unwrap(),
        "source is outside scope root: /x/note.md"
    );
    assert!(target_of("/w/.agents", "/w/.agents", "/h").is_err());
    assert_eq!(destination_taken("/h/x"), "destination already exists: /h/x");
    assert_eq!(staging_taken("/h/x"), "knowledge move staging already exists: /h/x");
}

#[test]
fn requests_name_another_scope_and_a_slug() {
    assert_eq!(check_request(Scope::Project, Scope::Project, "a").unwrap_err(), "scope 相同");
    assert_eq!(
        check_request(Scope::Project, Scope::Personal, "  ").unwrap_err(),
        "knowledge move slug cannot be empty"
    );
    assert!(check_request(Scope::Project, Scope::Personal, "a").is_ok());
}

#[test]
fn paths_are_compared_part_by_part() {
    assert!(same_path("/a//b/./c/", "/a/b/c"));
    assert!(!same_path("/a/b", "a/b"));
    assert!(!same_path("./a", "a"));
    assert!(!same_path("/a/x/../b", "/a/b"));
    assert_eq!(join_path("/a/", "b"), "/a/b");
    assert_eq!(join_path("/a", "/b"), "/b");
    assert_eq!(strip_base("/a/b/c", "/a/"), Some("b/c".to_string()));
    assert_eq!(strip_base("/ab/c", "/a"), None);
    assert_eq!(strip_base("/a", "/a"), Some(String::new()));
}

#[test]
fn trees_are_compared_with_all_that_is_in_them() {
    let file = |d: u8| Tree::File { len: 1, digest: vec![d] };
    let dir = |d: u8| Tree::Dir(vec![("a".to_string(), file(1)), ("b".to_string(), Tree::Dir(vec![("c".to_string(), file(d))]))]);
    assert_eq!(equivalent(&dir(1), &dir(1)), Ok(true));
    assert_eq!(equivalent(&dir(1), &dir(2)), Ok(false));
    assert_eq!(equivalent(&dir(1), &file(1)), Ok(false));
    let renamed = Tree::Dir(vec![("a".to_string(), file(1)), ("x".to_string(), file(1))]);
    assert_eq!(equivalent(&dir(1), &renamed), Ok(false));
    let linked = |d: u8| Tree::Dir(vec![("a".to_string(), file(d)), ("l".to_string(), Tree::Link)]);
    assert_eq!(equivalent(&linked(1), &linked(1)).unwrap_err(), "knowledge move recovery rejects symlinks");
    assert_eq!(equivalent(&linked(1), &linked(2)), Ok(false));
}

#[test]
fn symlinked_destination_parent_is_rejected_without_moving_source() {
    let way = passages("/h/.agents", "/h/.agents/notes/deep").unwrap();
    assert_eq!(way, vec!["/h/.agents/notes", "/h/.agents/notes/deep"]);
    let error = passage(&way[0], Seen::Link, true).unwrap_err();
    assert_eq!(error, "knowledge move parent contains a symlink or non-directory: /h/.agents/notes");
    assert_eq!(presence("/h/x", Seen::Link).unwrap_err(), "knowledge move rejects symlink: /h/x");
    assert_eq!(descent("/h/x", Seen::Link).unwrap_err(), "knowledge move rejects symlink: /h/x");
    assert_eq!(
        check_directory("workspace", "/w", Seen::Link).unwrap_err(),
        "workspace is not a real directory: /w"
    );
}

#[test]
fn moves_stay_inside_real_directories() {
    assert_eq!(
        passages("/h/.agents", "/h/other").unwrap_err(),
        "knowledge move parent escapes scope root: /h/other"
    );
    assert_eq!(
        passages("/h/.agents", "/h/.agents/a/../b").unwrap_err(),
        "knowledge move parent is invalid: /h/.agents/a/../b"
    );
    assert!(passages("/h/.agents", "/h/.agents/").unwrap().is_empty());
    let missing = || Seen::Missing("not found".into());
    assert_eq!(passage("/h/a", missing(), true), Ok(true));
    assert_eq!(passage("/h/a", missing(), false).unwrap_err(), "inspect /h/a: not found");
    assert_eq!(passage("/h/a", Seen::Directory, true), Ok(false));
    assert_eq!(presence("/h/a", missing()), Ok(false));
    assert_eq!(presence("/h/a", Seen::Other), Ok(true));
    assert_eq!(presence("/h/a", Seen::Failed("denied".into())).unwrap_err(), "inspect /h/a: denied");
    assert_eq!(descent("/h/a", Seen::Directory), Ok(true));
    assert_eq!(descent("/h/a", Seen::Other), Ok(false));
    assert_eq!(descent("/h/a", missing()).unwrap_err(), "inspect /h/a: not found");
    assert!(check_directory("home", "/h", Seen::Directory).is_ok());
    assert_eq!(check_directory("home", "/h", missing()).unwrap_err(), "inspect home /h: not found");
    assert!(check_inside("/h", "/h/.agents").is_ok());
    assert_eq!(check_inside("/h", "/hh").unwrap_err(), "knowledge root escapes its scope: /hh");
}

#[test]
fn the_copy_is_made_beside_the_destination() {
    assert_eq!(staging_path("/r//d/style.md", "t").unwrap(), "/r//d/.style.md.t.kxen-move");
    assert_eq!(staging_path("style.md", "t").unwrap(), ".style.md.t.kxen-move");
    assert_eq!(staging_path("/style.md/", "t").unwrap(), "/.style.md.t.kxen-move");
    assert_eq!(strip_base("/w/.agents/a//b", "/w/.agents").as_deref(), Some("a//b"));
    assert!(same_path(&join_path("/w/.agents", "a//b"), "/w/.agents/a/b"));
    assert_eq!(passages("/w//r", "/w/r/a/b").unwrap(), vec!["/w//r/a", "/w//r/a/b"]);
}
