//! Moving an entry to the other scope so that a crash in between can be mended:
//! a private record says what is moved, and each step of the move is decided here.

use crate::ident::{short_digest, text_digest};
use crate::knowledge::store::paths::{
    beside, components, in_same_dir, is_relative_down, join_path, joined_path,
    law_stripped_is_put_back, leads_down, name_in, same_dir, same_path, split_name, strip_base,
    stripped,
};
use crate::knowledge::{Entry, Scope};
use crate::text::{cat2, cat3, cat4, cat5, cat7, decimal, decimal_of, ends, str_eq, trim, trimmed};
use vstd::prelude::*;
use vstd::string::*;

verus! {

pub const CLAIM_VERSION: u32 = 2;

/// The record of a move.
#[derive(Debug)]
pub struct MoveClaim {
    pub version: u32,
    pub transaction_id: String,
    pub workspace: String,
    pub scope: Scope,
    pub to: Scope,
    pub requested_slug: String,
    pub entry_slug: String,
    pub source_root: String,
    pub destination_root: String,
    pub relative: String,
    pub source: String,
    pub destination: String,
    pub staging: String,
}

/// What may be moved at all: to another scope, and under a name.
pub fn check_request(scope: Scope, to: Scope, slug: &str) -> (r: Result<(), String>)
    ensures
        if scope == to {
            r matches Err(e) && e@ == "scope 相同"@
        } else if trimmed(slug@).len() == 0 {
            r matches Err(e) && e@ == "knowledge move slug cannot be empty"@
        } else {
            r is Ok
        },
{
    if scope == to {
        return Err("scope 相同".to_owned());
    }
    let name = trim(slug);
    if name.as_str().is_empty() {
        return Err("knowledge move slug cannot be empty".to_owned());
    }
    Ok(())
}

/// A rule file in the root of the project has no place in the other scope.
pub fn check_movable(entry: &Entry) -> (r: Result<(), String>)
    ensures
        if entry.is_agents_md {
            r matches Err(e) && e@ == "root interoperability rule cannot move between scopes"@
        } else {
            r is Ok
        },
{
    if entry.is_agents_md {
        Err("root interoperability rule cannot move between scopes".to_owned())
    } else {
        Ok(())
    }
}

/// The name of the record of a move: the same move has the same one.
pub open spec fn claim_name_of(workspace: Seq<char>, scope: Scope, to: Scope, slug: Seq<char>) -> Seq<
    char,
> {
    short_digest(
        workspace + "\0"@ + scope.name() + "\0"@ + to.name() + "\0"@ + slug,
        32,
    ) + ".json"@
}

pub fn claim_name(workspace: &str, scope: Scope, to: Scope, entry_slug: &str) -> (r: String)
    ensures
        r@ == claim_name_of(workspace@, scope, to, entry_slug@),
{
    let key = cat7(workspace, "\0", scope.as_str(), "\0", to.as_str(), "\0", entry_slug);
    let digest = text_digest(key.as_str(), 32);
    cat2(digest.as_str(), ".json")
}

pub open spec fn same_move(claim: MoveClaim, workspace: Seq<char>, scope: Scope, to: Scope) -> bool {
    components(claim.workspace@) == components(workspace) && claim.scope == scope && claim.to == to
}

pub open spec fn names_slug(claim: MoveClaim, slug: Seq<char>) -> bool {
    claim.entry_slug@ == slug || claim.requested_slug@ == slug
}

/// The places of the records of this move.
pub open spec fn matching(
    claims: Seq<MoveClaim>,
    workspace: Seq<char>,
    scope: Scope,
    to: Scope,
    slug: Seq<char>,
) -> Seq<int>
    decreases claims.len(),
{
    if claims.len() == 0 {
        Seq::empty()
    } else {
        let head = matching(claims.drop_last(), workspace, scope, to, slug);
        if same_move(claims.last(), workspace, scope, to) && names_slug(claims.last(), slug) {
            head.push(claims.len() - 1)
        } else {
            head
        }
    }
}

/// The one record of a move that is asked for by this name. More than one is
/// no answer.
pub fn locate_claim(
    claims: &Vec<MoveClaim>,
    workspace: &str,
    scope: Scope,
    to: Scope,
    slug: &str,
) -> (r: Result<Option<usize>, String>)
    ensures
        ({
            let found = matching(claims@, workspace@, scope, to, slug@);
            if found.len() == 0 {
                r == Ok::<Option<usize>, String>(None)
            } else if found.len() == 1 {
                r matches Ok(Some(at)) && at == found[0]
            } else {
                r matches Err(e) && e@
                    == "knowledge move is BLOCKED: multiple private claims match "@ + slug@
            }
        }),
{
    let mut first: Option<usize> = None;
    let mut many = false;
    let mut i: usize = 0;
    assert(claims@.take(0) =~= Seq::<MoveClaim>::empty());
    while i < claims.len()
        invariant
            i <= claims@.len(),
            ({
                let found = matching(claims@.take(i as int), workspace@, scope, to, slug@);
                &&& many == (found.len() > 1)
                &&& first is None <==> found.len() == 0
                &&& first matches Some(at) ==> at == found[0]
            }),
        decreases claims@.len() - i,
    {
        assert(claims@.take(i + 1).drop_last() =~= claims@.take(i as int));
        let claim = &claims[i];
        if same_path(claim.workspace.as_str(), workspace) && claim.scope == scope && claim.to == to
            && (str_eq(claim.entry_slug.as_str(), slug) || str_eq(
            claim.requested_slug.as_str(),
            slug,
        )) {
            if first.is_some() {
                many = true;
            } else {
                first = Some(i);
            }
        }
        i = i + 1;
    }
    assert(claims@.take(i as int) =~= claims@);
    if many {
        return Err(cat2("knowledge move is BLOCKED: multiple private claims match ", slug));
    }
    Ok(first)
}

pub open spec fn bad_relative(relative: Seq<char>) -> Seq<char> {
    "knowledge move relative path is invalid: "@ + relative
}

/// A path below the root that leads down only.
pub fn validate_relative(relative: &str) -> (r: Result<(), String>)
    ensures
        if leads_down(relative@) {
            r is Ok
        } else {
            r matches Err(e) && e@ == bad_relative(relative@)
        },
{
    if is_relative_down(relative) {
        Ok(())
    } else {
        Err(cat2("knowledge move relative path is invalid: ", relative))
    }
}

pub open spec fn staging_name(name: Seq<char>, transaction_id: Seq<char>) -> Seq<char> {
    "."@ + name + "."@ + transaction_id + ".kxen-move"@
}

/// Where the copy is made before it is published: beside the destination.
pub fn staging_path(destination: &str, transaction_id: &str) -> (r: Result<String, String>)
    ensures
        match name_in(components(destination@)) {
            Some(name) => r matches Ok(path) && path@ == beside(
                destination@,
                staging_name(name, transaction_id@),
            ),
            None => r matches Err(e) && e@ == "destination has no UTF-8 name"@,
        },
{
    match split_name(destination) {
        Some((dir, name)) => {
            let hidden = cat5(".", name.as_str(), ".", transaction_id, ".kxen-move");
            Ok(join_path(dir.as_str(), hidden.as_str()))
        },
        None => Err("destination has no UTF-8 name".to_owned()),
    }
}

/// Where a source is moved to: the same way down below the other root.
pub struct Target {
    pub relative: String,
    pub destination: String,
}

/// The way down from the root to the source, and the place below the other root.
pub fn target_of(source: &str, source_root: &str, destination_root: &str) -> (r: Result<Target, String>)
    ensures
        match stripped(source@, source_root@) {
            None => r matches Err(e) && e@ == "source is outside scope root: "@ + source@,
            Some(relative) => if !leads_down(relative) {
                r matches Err(e) && e@ == bad_relative(relative)
            } else {
                r matches Ok(target) && target.relative@ == relative && target.destination@
                    == joined_path(destination_root@, relative)
            },
        },
{
    let relative = match strip_base(source, source_root) {
        Some(relative) => relative,
        None => return Err(cat2("source is outside scope root: ", source)),
    };
    match validate_relative(relative.as_str()) {
        Ok(()) => {},
        Err(e) => return Err(e),
    }
    let destination = join_path(destination_root, relative.as_str());
    Ok(Target { relative, destination })
}

/// There is something at the destination already.
pub fn destination_taken(destination: &str) -> (r: String)
    ensures
        r@ == "destination already exists: "@ + destination@,
{
    cat2("destination already exists: ", destination)
}

/// There is something where the copy would be made.
pub fn staging_taken(staging: &str) -> (r: String)
    ensures
        r@ == "knowledge move staging already exists: "@ + staging@,
{
    cat2("knowledge move staging already exists: ", staging)
}

/// Whether a record is of this version, of this move, and of this slug.
/// `id` says whether its transaction has a valid name.
pub fn check_identity(
    claim: &MoveClaim,
    id: Result<(), String>,
    workspace: &str,
    scope: Scope,
    to: Scope,
    slug: &str,
) -> (r: Result<(), String>)
    ensures
        if claim.version != CLAIM_VERSION {
            r matches Err(e) && e@ == "unsupported knowledge move claim version "@ + decimal(
                claim.version as nat,
            )
        } else if id is Err {
            r == id
        } else if !same_move(*claim, workspace@, scope, to) {
            r matches Err(e) && e@
                == "knowledge move claim identity does not match the requested workspace/scopes"@
        } else if !names_slug(*claim, slug@) {
            r matches Err(e) && e@ == "knowledge move claim does not match the requested slug"@
        } else {
            r is Ok
        },
{
    if claim.version != CLAIM_VERSION {
        let version = decimal_of(claim.version as u64);
        return Err(cat2("unsupported knowledge move claim version ", version.as_str()));
    }
    if id.is_err() {
        return id;
    }
    if !same_path(claim.workspace.as_str(), workspace) || claim.scope != scope || claim.to != to {
        return Err(
            "knowledge move claim identity does not match the requested workspace/scopes".to_owned(),
        );
    }
    if !str_eq(claim.entry_slug.as_str(), slug) && !str_eq(claim.requested_slug.as_str(), slug) {
        return Err("knowledge move claim does not match the requested slug".to_owned());
    }
    Ok(())
}

/// The paths of a record are those that follow from its roots and the way down.
pub open spec fn derived(claim: MoveClaim, source_root: Seq<char>, destination_root: Seq<char>) -> bool {
    let source = joined_path(source_root, claim.relative@);
    let destination = joined_path(destination_root, claim.relative@);
    &&& components(claim.source_root@) == components(source_root)
    &&& components(claim.destination_root@) == components(destination_root)
    &&& components(claim.source@) == components(source)
    &&& components(claim.destination@) == components(destination)
    &&& name_in(components(destination)) matches Some(name) && components(claim.staging@)
        == components(beside(destination, staging_name(name, claim.transaction_id@)))
}

/// Whether the paths of a record are exactly those that its move has. The roots
/// are given anew: a record has no say in them.
pub fn check_paths(claim: &MoveClaim, source_root: &str, destination_root: &str) -> (r: Result<
    (),
    String,
>)
    ensures
        ({
            let destination = joined_path(destination_root@, claim.relative@);
            if !leads_down(claim.relative@) {
                r matches Err(e) && e@ == bad_relative(claim.relative@)
            } else if name_in(components(destination)) is None {
                r matches Err(e) && e@ == "destination has no UTF-8 name"@
            } else if !derived(*claim, source_root@, destination_root@) {
                r matches Err(e) && e@
                    == "knowledge move claim paths do not match their exact derived identity"@
            } else {
                r is Ok
            }
        }),
{
    match validate_relative(claim.relative.as_str()) {
        Ok(()) => {},
        Err(e) => return Err(e),
    }
    let source = join_path(source_root, claim.relative.as_str());
    let destination = join_path(destination_root, claim.relative.as_str());
    let staging = match staging_path(destination.as_str(), claim.transaction_id.as_str()) {
        Ok(staging) => staging,
        Err(e) => return Err(e),
    };
    if !same_path(claim.source_root.as_str(), source_root) || !same_path(
        claim.destination_root.as_str(),
        destination_root,
    ) || !same_path(claim.source.as_str(), source.as_str()) || !same_path(
        claim.destination.as_str(),
        destination.as_str(),
    ) || !same_path(claim.staging.as_str(), staging.as_str()) {
        return Err("knowledge move claim paths do not match their exact derived identity".to_owned());
    }
    Ok(())
}

/// The record that is made of a move is one that is accepted when it is read
/// again: its paths are exactly those that follow from the roots.
pub proof fn law_new_claim_is_valid(
    claim: MoveClaim,
    source_root: Seq<char>,
    destination_root: Seq<char>,
    name: Seq<char>,
)
    requires
        components(source_root).is_prefix_of(components(claim.source@)),
        components(source_root).len() < components(claim.source@).len(),
        forall|i: int|
            components(source_root).len() <= i < components(claim.source@).len() ==> (
            #[trigger] components(claim.source@)[i]) is Name,
        claim.source_root@ == source_root,
        claim.destination_root@ == destination_root,
        stripped(claim.source@, source_root) == Some(claim.relative@),
        claim.destination@ == joined_path(destination_root, claim.relative@),
        name_in(components(claim.destination@)) == Some(name),
        claim.staging@ == beside(claim.destination@, staging_name(name, claim.transaction_id@)),
    ensures
        leads_down(claim.relative@),
        derived(claim, source_root, destination_root),
{
    law_stripped_is_put_back(claim.source@, source_root);
}

/// Which end of a move is looked at, by what lies there: the source as long as it
/// is there, and the destination after that. Where neither is, nothing is.
pub fn end_to_check(claim: &MoveClaim, at_source: bool, at_destination: bool) -> (r: Option<
    (bool, Scope),
>)
    ensures
        r == (if at_source {
            Some((true, claim.scope))
        } else if at_destination {
            Some((false, claim.to))
        } else {
            None
        }),
{
    if at_source {
        Some((true, claim.scope))
    } else if at_destination {
        Some((false, claim.to))
    } else {
        None
    }
}

/// Whether what lies at one end of the move is the entry that was asked for:
/// `entry_slug` and `actual` are the slug and the real path of the entry that is
/// found under the record's slug; `at_source` says at which end.
pub fn check_entry(claim: &MoveClaim, at_source: bool, entry_slug: &str, actual: &str) -> (r: Result<
    (),
    String,
>)
    ensures
        ({
            let place = if at_source {
                claim.source@
            } else {
                claim.destination@
            };
            if entry_slug@ == claim.entry_slug@ && components(actual@) == components(place) {
                r is Ok
            } else if at_source {
                r matches Err(e) && e@
                    == "knowledge move claim source is not the requested slug entry"@
            } else {
                r matches Err(e) && e@
                    == "knowledge move claim destination is not the requested slug entry"@
            }
        }),
{
    let place = if at_source {
        claim.source.as_str()
    } else {
        claim.destination.as_str()
    };
    if str_eq(entry_slug, claim.entry_slug.as_str()) && same_path(actual, place) {
        return Ok(());
    }
    if at_source {
        Err("knowledge move claim source is not the requested slug entry".to_owned())
    } else {
        Err("knowledge move claim destination is not the requested slug entry".to_owned())
    }
}

/// What is to be done next.
#[derive(Debug, Clone, Copy, PartialEq, Eq, Structural)]
pub enum Work {
    /// Is there a source?
    SourceThere,
    /// Is there a destination?
    DestinationThere { source: bool },
    /// Do source and destination hold the same?
    Compare,
    /// Make the directory of the destination.
    PrepareParent,
    /// Rename the source to the destination: no, where they are on different
    /// devices.
    Rename,
    /// Sync the directory of the destination.
    MovedDestination,
    /// Sync the directory of the source.
    MovedSource,
    /// Is there a copy from an earlier attempt?
    StagingThere,
    /// Does that copy hold the same as the source?
    CompareStaging,
    /// Throw that copy away.
    DiscardStaging,
    /// Sync the directory of the destination.
    SyncDiscarded,
    /// Copy the source beside the destination.
    CopySource,
    /// Rename the copy to the destination.
    Publish { recovered: bool },
    /// Sync the directory of the destination.
    SyncPublished,
    /// Throw the source away.
    TrashSource,
    /// Sync the directory of the source.
    SyncTrashed,
    /// Is there a destination now?
    FinalDestination,
    /// Is there still a source?
    FinalSource,
    /// Sync the directory of the destination.
    DurableDestination,
    /// Sync the directory of the source.
    DurableSource,
    /// Remove the record: no, where it is gone.
    RemoveClaim,
    /// Sync the directory of the record.
    SyncClaims,
}

/// How it went. Where nothing was asked, a no counts as done.
#[derive(Debug)]
pub enum Outcome {
    Yes,
    No,
    Failed(String),
}

/// Where a move stands.
#[derive(Debug)]
pub enum Stage {
    Work(Work),
    /// The record is to be written again, after this failure.
    RestoreClaim(String),
    Done(Result<String, String>),
}

#[verifier::ext_equal]
pub enum StageView {
    Work(Work),
    RestoreClaim(Seq<char>),
    Done(Result<Seq<char>, Seq<char>>),
}

impl View for Stage {
    type V = StageView;

    open spec fn view(&self) -> StageView {
        match *self {
            Stage::Work(work) => StageView::Work(work),
            Stage::RestoreClaim(e) => StageView::RestoreClaim(e@),
            Stage::Done(Ok(path)) => StageView::Done(Ok(path@)),
            Stage::Done(Err(e)) => StageView::Done(Err(e@)),
        }
    }
}

/// What is said of a failure.
pub open spec fn failure(work: Work, claim: MoveClaim, record: Seq<char>, error: Seq<char>) -> Seq<char> {
    match work {
        Work::Rename => "move "@ + claim.source@ + ": "@ + error,
        Work::DiscardStaging => "discard stale move staging "@ + claim.staging@ + ": "@ + error,
        Work::Publish { recovered: true } => "publish recovered knowledge move "@ + claim.destination@
            + ": "@ + error,
        Work::Publish { recovered: false } => "publish knowledge move "@ + claim.destination@ + ": "@
            + error,
        Work::TrashSource => "move source to Trash "@ + claim.source@ + ": "@ + error,
        Work::RemoveClaim => "remove knowledge move claim "@ + record + ": "@ + error,
        _ => error,
    }
}

pub open spec fn blocked(why: Seq<char>) -> StageView {
    StageView::Done(Err(why))
}

/// What follows where the work was done, and answered with a yes or a no.
pub open spec fn following(work: Work, yes: bool, claim: MoveClaim, copy: bool) -> StageView {
    let one_dir = same_dir(claim.source@, claim.destination@);
    match work {
        Work::SourceThere => StageView::Work(Work::DestinationThere { source: yes }),
        Work::DestinationThere { source } => if source && yes {
            StageView::Work(Work::Compare)
        } else if source {
            StageView::Work(Work::PrepareParent)
        } else if yes {
            StageView::Work(Work::FinalDestination)
        } else {
            blocked("knowledge move is BLOCKED: both source and destination are missing"@)
        },
        Work::Compare => if yes {
            StageView::Work(Work::TrashSource)
        } else {
            blocked("knowledge move is BLOCKED: source and destination differ"@)
        },
        Work::PrepareParent => if copy {
            StageView::Work(Work::StagingThere)
        } else {
            StageView::Work(Work::Rename)
        },
        Work::Rename => if yes {
            StageView::Work(Work::MovedDestination)
        } else {
            StageView::Work(Work::StagingThere)
        },
        Work::MovedDestination => if one_dir {
            StageView::Work(Work::FinalDestination)
        } else {
            StageView::Work(Work::MovedSource)
        },
        Work::MovedSource => StageView::Work(Work::FinalDestination),
        Work::StagingThere => if yes {
            StageView::Work(Work::CompareStaging)
        } else {
            StageView::Work(Work::CopySource)
        },
        Work::CompareStaging => if yes {
            StageView::Work(Work::Publish { recovered: true })
        } else {
            StageView::Work(Work::DiscardStaging)
        },
        Work::DiscardStaging => StageView::Work(Work::SyncDiscarded),
        Work::SyncDiscarded => StageView::Work(Work::CopySource),
        Work::CopySource => StageView::Work(Work::Publish { recovered: false }),
        Work::Publish { .. } => StageView::Work(Work::SyncPublished),
        Work::SyncPublished => StageView::Work(Work::TrashSource),
        Work::TrashSource => StageView::Work(Work::SyncTrashed),
        Work::SyncTrashed => StageView::Work(Work::FinalDestination),
        Work::FinalDestination => if yes {
            StageView::Work(Work::FinalSource)
        } else {
            blocked("knowledge move destination is not visible"@)
        },
        Work::FinalSource => if yes {
            blocked("knowledge move source is still visible"@)
        } else {
            StageView::Work(Work::DurableDestination)
        },
        Work::DurableDestination => if one_dir {
            StageView::Work(Work::RemoveClaim)
        } else {
            StageView::Work(Work::DurableSource)
        },
        Work::DurableSource => StageView::Work(Work::RemoveClaim),
        Work::RemoveClaim => if yes {
            StageView::Work(Work::SyncClaims)
        } else {
            StageView::Done(Ok(claim.destination@))
        },
        Work::SyncClaims => StageView::Done(Ok(claim.destination@)),
    }
}

/// Where a move stands after a step. `copy` has the source copied even where it
/// could be renamed; `record` is the path of the record.
pub open spec fn advanced(
    stage: StageView,
    outcome: Outcome,
    claim: MoveClaim,
    record: Seq<char>,
    copy: bool,
) -> StageView {
    match stage {
        StageView::Work(work) => match outcome {
            Outcome::Yes => following(work, true, claim, copy),
            Outcome::No => following(work, false, claim, copy),
            Outcome::Failed(error) => if work == Work::SyncClaims {
                StageView::RestoreClaim(error@)
            } else {
                blocked(failure(work, claim, record, error@))
            },
        },
        StageView::RestoreClaim(first) => match outcome {
            Outcome::Failed(repair) => blocked(
                "knowledge move claim removal durability is BLOCKED: "@ + first
                    + "; claim restore failed: "@ + repair@,
            ),
            _ => blocked(
                "knowledge move claim removal durability is indeterminate: "@ + first
                    + "; claim restored for retry"@,
            ),
        },
        StageView::Done(_) => stage,
    }
}

fn explain(work: Work, claim: &MoveClaim, record: &str, error: String) -> (r: String)
    ensures
        r@ == failure(work, *claim, record@, error@),
{
    match work {
        Work::Rename => cat4("move ", claim.source.as_str(), ": ", error.as_str()),
        Work::DiscardStaging => cat4(
            "discard stale move staging ",
            claim.staging.as_str(),
            ": ",
            error.as_str(),
        ),
        Work::Publish { recovered } => if recovered {
            cat4(
                "publish recovered knowledge move ",
                claim.destination.as_str(),
                ": ",
                error.as_str(),
            )
        } else {
            cat4("publish knowledge move ", claim.destination.as_str(), ": ", error.as_str())
        },
        Work::TrashSource => cat4("move source to Trash ", claim.source.as_str(), ": ", error.as_str()),
        Work::RemoveClaim => cat4("remove knowledge move claim ", record, ": ", error.as_str()),
        _ => error,
    }
}

fn stop(why: &str) -> (r: Stage)
    ensures
        r@ == blocked(why@),
{
    Stage::Done(Err(why.to_owned()))
}

fn follow(work: Work, yes: bool, claim: &MoveClaim, copy: bool) -> (r: Stage)
    requires
        components(claim.source@).len() > 0,
        components(claim.destination@).len() > 0,
    ensures
        r@ == following(work, yes, *claim, copy),
{
    let one_dir = in_same_dir(claim.source.as_str(), claim.destination.as_str());
    match work {
        Work::SourceThere => Stage::Work(Work::DestinationThere { source: yes }),
        Work::DestinationThere { source } => if source && yes {
            Stage::Work(Work::Compare)
        } else if source {
            Stage::Work(Work::PrepareParent)
        } else if yes {
            Stage::Work(Work::FinalDestination)
        } else {
            stop("knowledge move is BLOCKED: both source and destination are missing")
        },
        Work::Compare => if yes {
            Stage::Work(Work::TrashSource)
        } else {
            stop("knowledge move is BLOCKED: source and destination differ")
        },
        Work::PrepareParent => if copy {
            Stage::Work(Work::StagingThere)
        } else {
            Stage::Work(Work::Rename)
        },
        Work::Rename => if yes {
            Stage::Work(Work::MovedDestination)
        } else {
            Stage::Work(Work::StagingThere)
        },
        Work::MovedDestination => if one_dir {
            Stage::Work(Work::FinalDestination)
        } else {
            Stage::Work(Work::MovedSource)
        },
        Work::MovedSource => Stage::Work(Work::FinalDestination),
        Work::StagingThere => if yes {
            Stage::Work(Work::CompareStaging)
        } else {
            Stage::Work(Work::CopySource)
        },
        Work::CompareStaging => if yes {
            Stage::Work(Work::Publish { recovered: true })
        } else {
            Stage::Work(Work::DiscardStaging)
        },
        Work::DiscardStaging => Stage::Work(Work::SyncDiscarded),
        Work::SyncDiscarded => Stage::Work(Work::CopySource),
        Work::CopySource => Stage::Work(Work::Publish { recovered: false }),
        Work::Publish { .. } => Stage::Work(Work::SyncPublished),
        Work::SyncPublished => Stage::Work(Work::TrashSource),
        Work::TrashSource => Stage::Work(Work::SyncTrashed),
        Work::SyncTrashed => Stage::Work(Work::FinalDestination),
        Work::FinalDestination => if yes {
            Stage::Work(Work::FinalSource)
        } else {
            stop("knowledge move destination is not visible")
        },
        Work::FinalSource => if yes {
            stop("knowledge move source is still visible")
        } else {
            Stage::Work(Work::DurableDestination)
        },
        Work::DurableDestination => if one_dir {
            Stage::Work(Work::RemoveClaim)
        } else {
            Stage::Work(Work::DurableSource)
        },
        Work::DurableSource => Stage::Work(Work::RemoveClaim),
        Work::RemoveClaim => if yes {
            Stage::Work(Work::SyncClaims)
        } else {
            Stage::Done(Ok(claim.destination.clone()))
        },
        Work::SyncClaims => Stage::Done(Ok(claim.destination.clone())),
    }
}

impl Stage {
    /// Where every move begins, a new one and one that was interrupted.
    pub fn start() -> (r: Stage)
        ensures
            r@ == StageView::Work(Work::SourceThere),
    {
        Stage::Work(Work::SourceThere)
    }

    /// One step on. Source and destination lead somewhere.
    pub fn advance(self, outcome: Outcome, claim: &MoveClaim, record: &str, copy: bool) -> (r: Stage)
        requires
            components(claim.source@).len() > 0,
            components(claim.destination@).len() > 0,
        ensures
            r@ == advanced(self@, outcome, *claim, record@, copy),
    {
        match self {
            Stage::Work(work) => match outcome {
                Outcome::Yes => follow(work, true, claim, copy),
                Outcome::No => follow(work, false, claim, copy),
                Outcome::Failed(error) => if work == Work::SyncClaims {
                    Stage::RestoreClaim(error)
                } else {
                    Stage::Done(Err(explain(work, claim, record, error)))
                },
            },
            Stage::RestoreClaim(first) => match outcome {
                Outcome::Failed(repair) => Stage::Done(
                    Err(
                        cat4(
                            "knowledge move claim removal durability is BLOCKED: ",
                            first.as_str(),
                            "; claim restore failed: ",
                            repair.as_str(),
                        ),
                    ),
                ),
                _ => Stage::Done(
                    Err(
                        cat3(
                            "knowledge move claim removal durability is indeterminate: ",
                            first.as_str(),
                            "; claim restored for retry",
                        ),
                    ),
                ),
            },
            Stage::Done(result) => Stage::Done(result),
        }
    }
}

/// How many steps can still follow, at most.
pub open spec fn steps_left(stage: StageView) -> int {
    match stage {
        StageView::Work(work) => match work {
            Work::SourceThere => 30,
            Work::DestinationThere { .. } => 29,
            Work::Compare => 28,
            Work::PrepareParent => 27,
            Work::Rename => 26,
            Work::StagingThere => 25,
            Work::CompareStaging => 24,
            Work::DiscardStaging => 23,
            Work::SyncDiscarded => 22,
            Work::CopySource => 21,
            Work::Publish { .. } => 20,
            Work::SyncPublished => 19,
            Work::TrashSource => 18,
            Work::SyncTrashed => 17,
            Work::MovedDestination => 16,
            Work::MovedSource => 15,
            Work::FinalDestination => 14,
            Work::FinalSource => 13,
            Work::DurableDestination => 12,
            Work::DurableSource => 11,
            Work::RemoveClaim => 10,
            Work::SyncClaims => 9,
        },
        StageView::RestoreClaim(_) => 1,
        StageView::Done(_) => 0,
    }
}

/// Every move ends.
pub proof fn law_move_ends(
    stage: StageView,
    outcome: Outcome,
    claim: MoveClaim,
    record: Seq<char>,
    copy: bool,
)
    requires
        !(stage is Done),
    ensures
        0 <= steps_left(advanced(stage, outcome, claim, record, copy)) < steps_left(stage),
{
}

/// A record is removed only right after the destination was seen, the source was
/// not, and the directories of both were synced after that: a failed sync keeps
/// it for another attempt.
pub proof fn law_claim_outlives_the_move(
    stage: StageView,
    outcome: Outcome,
    claim: MoveClaim,
    record: Seq<char>,
    copy: bool,
)
    ensures
        advanced(stage, outcome, claim, record, copy) == StageView::Work(Work::RemoveClaim) ==> {
            &&& !(outcome is Failed)
            &&& stage == StageView::Work(Work::DurableSource) || (stage == StageView::Work(
                Work::DurableDestination,
            ) && same_dir(claim.source@, claim.destination@))
        },
        advanced(stage, outcome, claim, record, copy) == StageView::Work(Work::DurableSource)
            ==> !(outcome is Failed) && stage == StageView::Work(Work::DurableDestination),
        advanced(stage, outcome, claim, record, copy) == StageView::Work(Work::DurableDestination)
            ==> outcome is No && stage == StageView::Work(Work::FinalSource),
        advanced(stage, outcome, claim, record, copy) == StageView::Work(Work::FinalSource)
            ==> outcome is Yes && stage == StageView::Work(Work::FinalDestination),
{
}

/// A move succeeds only where its record was removed for good, or was gone.
pub proof fn law_success_removes_the_claim(
    stage: StageView,
    outcome: Outcome,
    claim: MoveClaim,
    record: Seq<char>,
    copy: bool,
)
    requires
        !(stage is Done),
        advanced(stage, outcome, claim, record, copy) matches StageView::Done(Ok(_)),
    ensures
        advanced(stage, outcome, claim, record, copy) == StageView::Done(Ok(claim.destination@)),
        (stage == StageView::Work(Work::RemoveClaim) && outcome is No) || (stage == StageView::Work(
            Work::SyncClaims,
        ) && !(outcome is Failed)),
{
}

/// The source is thrown away only where the destination is known to hold the
/// same, or was published and synced.
pub proof fn law_source_is_trashed_last(
    stage: StageView,
    outcome: Outcome,
    claim: MoveClaim,
    record: Seq<char>,
    copy: bool,
)
    requires
        advanced(stage, outcome, claim, record, copy) == StageView::Work(Work::TrashSource),
    ensures
        (stage == StageView::Work(Work::Compare) && outcome is Yes) || (stage == StageView::Work(
            Work::SyncPublished,
        ) && !(outcome is Failed)),
{
}

/// Where source and destination differ, or are both gone, nothing is touched.
pub proof fn law_conflicts_are_left_alone(claim: MoveClaim, record: Seq<char>, copy: bool)
    ensures
        advanced(StageView::Work(Work::Compare), Outcome::No, claim, record, copy) is Done,
        advanced(
            StageView::Work(Work::DestinationThere { source: false }),
            Outcome::No,
            claim,
            record,
            copy,
        ) is Done,
{
}

/// What fails stops the move and is told with its error. Only the sync behind the
/// record's removal has something to mend first: the record is written again.
pub proof fn law_failures_stop_the_move(
    work: Work,
    error: String,
    claim: MoveClaim,
    record: Seq<char>,
    copy: bool,
)
    ensures
        ({
            let next = advanced(StageView::Work(work), Outcome::Failed(error), claim, record, copy);
            &&& work == Work::SyncClaims ==> next == StageView::RestoreClaim(error@)
            &&& work != Work::SyncClaims ==> (next matches StageView::Done(Err(why)) && ends(
                why,
                error@,
            ))
        }),
{
    let text = failure(work, claim, record, error@);
    assert(text.subrange(text.len() - error@.len(), text.len() as int) =~= error@);
}

/// A record that had to be written again never ends well, and both failures are
/// told where that failed too.
pub proof fn law_restored_claim_is_no_success(
    first: Seq<char>,
    outcome: Outcome,
    claim: MoveClaim,
    record: Seq<char>,
    copy: bool,
)
    ensures
        advanced(StageView::RestoreClaim(first), outcome, claim, record, copy) matches StageView::Done(
            Err(why),
        ) && (outcome matches Outcome::Failed(repair) ==> ends(why, repair@)),
{
    if let Outcome::Failed(repair) = outcome {
        let text = "knowledge move claim removal durability is BLOCKED: "@ + first
            + "; claim restore failed: "@ + repair@;
        assert(text.subrange(text.len() - repair@.len(), text.len() as int) =~= repair@);
    }
}

/// The source is moved by a rename where that is allowed and can be done, and else
/// by a copy: a good one from before is taken up, any other is thrown away first.
/// Either way what was done is synced, and then looked at once more.
pub proof fn law_move_renames_or_copies(claim: MoveClaim, record: Seq<char>, copy: bool)
    ensures
        ({
            let step = |work: Work, outcome: Outcome|
                advanced(StageView::Work(work), outcome, claim, record, copy);
            let one_dir = same_dir(claim.source@, claim.destination@);
            &&& step(Work::SourceThere, Outcome::Yes) == StageView::Work(
                Work::DestinationThere { source: true },
            )
            &&& step(Work::SourceThere, Outcome::No) == StageView::Work(
                Work::DestinationThere { source: false },
            )
            &&& step(Work::DestinationThere { source: true }, Outcome::No) == StageView::Work(
                Work::PrepareParent,
            )
            &&& step(Work::DestinationThere { source: true }, Outcome::Yes) == StageView::Work(
                Work::Compare,
            )
            &&& step(Work::DestinationThere { source: false }, Outcome::Yes) == StageView::Work(
                Work::FinalDestination,
            )
            &&& !copy ==> step(Work::PrepareParent, Outcome::Yes) == StageView::Work(Work::Rename)
            &&& copy ==> step(Work::PrepareParent, Outcome::Yes) == StageView::Work(
                Work::StagingThere,
            )
            &&& step(Work::Rename, Outcome::Yes) == StageView::Work(Work::MovedDestination)
            &&& step(Work::Rename, Outcome::No) == StageView::Work(Work::StagingThere)
            &&& !one_dir ==> step(Work::MovedDestination, Outcome::Yes) == StageView::Work(
                Work::MovedSource,
            )
            &&& step(Work::MovedSource, Outcome::Yes) == StageView::Work(Work::FinalDestination)
            &&& step(Work::StagingThere, Outcome::Yes) == StageView::Work(Work::CompareStaging)
            &&& step(Work::StagingThere, Outcome::No) == StageView::Work(Work::CopySource)
            &&& step(Work::CompareStaging, Outcome::Yes) == StageView::Work(
                Work::Publish { recovered: true },
            )
            &&& step(Work::CompareStaging, Outcome::No) == StageView::Work(Work::DiscardStaging)
            &&& step(Work::DiscardStaging, Outcome::Yes) == StageView::Work(Work::SyncDiscarded)
            &&& step(Work::SyncDiscarded, Outcome::Yes) == StageView::Work(Work::CopySource)
            &&& step(Work::CopySource, Outcome::Yes) == StageView::Work(
                Work::Publish { recovered: false },
            )
            &&& step(Work::Publish { recovered: false }, Outcome::Yes) == StageView::Work(
                Work::SyncPublished,
            )
            &&& step(Work::SyncPublished, Outcome::Yes) == StageView::Work(Work::TrashSource)
            &&& step(Work::TrashSource, Outcome::Yes) == StageView::Work(Work::SyncTrashed)
            &&& step(Work::SyncTrashed, Outcome::Yes) == StageView::Work(Work::FinalDestination)
        }),
{
}

/// A move is not done while its destination cannot be seen or its source still can.
pub proof fn law_move_is_looked_at_once_more(claim: MoveClaim, record: Seq<char>, copy: bool)
    ensures
        advanced(
            StageView::Work(Work::FinalDestination),
            Outcome::No,
            claim,
            record,
            copy,
        ) matches StageView::Done(Err(_)),
        advanced(
            StageView::Work(Work::FinalSource),
            Outcome::Yes,
            claim,
            record,
            copy,
        ) matches StageView::Done(Err(_)),
{
}

/// The claims that match are exactly those of the same move that name the slug, in
/// order.
pub proof fn law_matching_claims_are_found(
    claims: Seq<MoveClaim>,
    workspace: Seq<char>,
    scope: Scope,
    to: Scope,
    slug: Seq<char>,
    i: int,
)
    requires
        0 <= i < claims.len(),
    ensures
        matching(claims, workspace, scope, to, slug).contains(i) <==> components(
            claims[i].workspace@,
        ) == components(workspace) && claims[i].scope == scope && claims[i].to == to && (
        claims[i].entry_slug@ == slug || claims[i].requested_slug@ == slug),
    decreases claims.len(),
{
    let init = claims.drop_last();
    let head = matching(init, workspace, scope, to, slug);
    let out = matching(claims, workspace, scope, to, slug);
    if i < init.len() {
        law_matching_claims_are_found(init, workspace, scope, to, slug, i);
        assert(init[i] == claims[i]);
        if head.contains(i) {
            let k = choose|k: int| 0 <= k < head.len() && head[k] == i;
            assert(out[k] == i);
        }
        if out.contains(i) {
            let k = choose|k: int| 0 <= k < out.len() && out[k] == i;
            assert(head[k] == i);
        }
    } else {
        lemma_matching_bound(init, workspace, scope, to, slug);
        if out.len() > head.len() {
            assert(out.last() == i);
        }
        if out.contains(i) && out.len() == head.len() {
            let k = choose|k: int| 0 <= k < out.len() && out[k] == i;
            assert(head[k] < init.len());
        }
    }
}

proof fn lemma_matching_bound(
    claims: Seq<MoveClaim>,
    workspace: Seq<char>,
    scope: Scope,
    to: Scope,
    slug: Seq<char>,
)
    ensures
        forall|k: int|
            0 <= k < matching(claims, workspace, scope, to, slug).len() ==> 0 <= #[trigger] matching(
                claims,
                workspace,
                scope,
                to,
                slug,
            )[k] < claims.len(),
    decreases claims.len(),
{
    if claims.len() > 0 {
        let head = matching(claims.drop_last(), workspace, scope, to, slug);
        let out = matching(claims, workspace, scope, to, slug);
        lemma_matching_bound(claims.drop_last(), workspace, scope, to, slug);
        assert forall|k: int| 0 <= k < out.len() implies 0 <= #[trigger] out[k] < claims.len() by {
            if k < head.len() {
                assert(out[k] == head[k]);
            }
        }
    }
}

} // verus!
