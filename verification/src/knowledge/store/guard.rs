//! What a move may touch: real directories inside a scope, and nothing through a
//! symlink.

use crate::knowledge::store::paths::{
    begins_with, components, components_of, join_path, joined_path, law_leading_down_stays_below,
    law_names_stand_alone, leads_down, part_text, part_views, Part,
};
use crate::text::{cat2, cat4, cat6, views};
use vstd::prelude::*;
use vstd::string::*;

verus! {

/// What was seen at a path. A reason is given where nothing could be seen.
#[derive(Debug)]
pub enum Seen {
    Link,
    Directory,
    Other,
    Missing(String),
    Failed(String),
}

#[verifier::ext_equal]
pub enum SeenView {
    Link,
    Directory,
    Other,
    Missing(Seq<char>),
    Failed(Seq<char>),
}

impl View for Seen {
    type V = SeenView;

    open spec fn view(&self) -> SeenView {
        match *self {
            Seen::Link => SeenView::Link,
            Seen::Directory => SeenView::Directory,
            Seen::Other => SeenView::Other,
            Seen::Missing(reason) => SeenView::Missing(reason@),
            Seen::Failed(reason) => SeenView::Failed(reason@),
        }
    }
}

pub open spec fn not_inspected(path: Seq<char>, reason: Seq<char>) -> Seq<char> {
    "inspect "@ + path + ": "@ + reason
}

pub open spec fn link_refused(path: Seq<char>) -> Seq<char> {
    "knowledge move rejects symlink: "@ + path
}

/// Whether something is there.
pub open spec fn presence_of(path: Seq<char>, seen: SeenView) -> Result<bool, Seq<char>> {
    match seen {
        SeenView::Link => Err(link_refused(path)),
        SeenView::Directory | SeenView::Other => Ok(true),
        SeenView::Missing(_) => Ok(false),
        SeenView::Failed(reason) => Err(not_inspected(path, reason)),
    }
}

pub open spec fn answer_view(r: Result<bool, String>) -> Result<bool, Seq<char>> {
    match r {
        Ok(yes) => Ok(yes),
        Err(e) => Err(e@),
    }
}

pub fn presence(path: &str, seen: Seen) -> (r: Result<bool, String>)
    ensures
        answer_view(r) == presence_of(path@, seen@),
{
    match seen {
        Seen::Link => Err(cat2("knowledge move rejects symlink: ", path)),
        Seen::Directory => Ok(true),
        Seen::Other => Ok(true),
        Seen::Missing(_) => Ok(false),
        Seen::Failed(reason) => Err(cat4("inspect ", path, ": ", reason.as_str())),
    }
}

/// Whether a tree that is to be moved goes on below a path.
pub open spec fn descent_of(path: Seq<char>, seen: SeenView) -> Result<bool, Seq<char>> {
    match seen {
        SeenView::Link => Err(link_refused(path)),
        SeenView::Directory => Ok(true),
        SeenView::Other => Ok(false),
        SeenView::Missing(reason) | SeenView::Failed(reason) => Err(not_inspected(path, reason)),
    }
}

pub fn descent(path: &str, seen: Seen) -> (r: Result<bool, String>)
    ensures
        answer_view(r) == descent_of(path@, seen@),
{
    match seen {
        Seen::Link => Err(cat2("knowledge move rejects symlink: ", path)),
        Seen::Directory => Ok(true),
        Seen::Other => Ok(false),
        Seen::Missing(reason) => Err(cat4("inspect ", path, ": ", reason.as_str())),
        Seen::Failed(reason) => Err(cat4("inspect ", path, ": ", reason.as_str())),
    }
}

/// Whether a directory on the way is to be made.
pub open spec fn passage_of(path: Seq<char>, seen: SeenView, create: bool) -> Result<bool, Seq<char>> {
    match seen {
        SeenView::Directory => Ok(false),
        SeenView::Link | SeenView::Other => Err(
            "knowledge move parent contains a symlink or non-directory: "@ + path,
        ),
        SeenView::Missing(reason) => if create {
            Ok(true)
        } else {
            Err(not_inspected(path, reason))
        },
        SeenView::Failed(reason) => Err(not_inspected(path, reason)),
    }
}

pub fn passage(path: &str, seen: Seen, create: bool) -> (r: Result<bool, String>)
    ensures
        answer_view(r) == passage_of(path@, seen@, create),
{
    match seen {
        Seen::Directory => Ok(false),
        Seen::Link => Err(
            cat2("knowledge move parent contains a symlink or non-directory: ", path),
        ),
        Seen::Other => Err(
            cat2("knowledge move parent contains a symlink or non-directory: ", path),
        ),
        Seen::Missing(reason) => if create {
            Ok(true)
        } else {
            Err(cat4("inspect ", path, ": ", reason.as_str()))
        },
        Seen::Failed(reason) => Err(cat4("inspect ", path, ": ", reason.as_str())),
    }
}

/// A directory that a move starts from must be a real one.
pub fn check_directory(label: &str, path: &str, seen: Seen) -> (r: Result<(), String>)
    ensures
        match seen@ {
            SeenView::Directory => r is Ok,
            SeenView::Link | SeenView::Other => r matches Err(e) && e@ == label@
                + " is not a real directory: "@ + path@,
            SeenView::Missing(reason) | SeenView::Failed(reason) => r matches Err(e) && e@
                == "inspect "@ + label@ + " "@ + path@ + ": "@ + reason,
        },
{
    match seen {
        Seen::Directory => Ok(()),
        Seen::Link => Err(not_real(label, path)),
        Seen::Other => Err(not_real(label, path)),
        Seen::Missing(reason) => Err(
            cat6("inspect ", label, " ", path, ": ", reason.as_str()),
        ),
        Seen::Failed(reason) => Err(
            cat6("inspect ", label, " ", path, ": ", reason.as_str()),
        ),
    }
}

fn not_real(label: &str, path: &str) -> (r: String)
    ensures
        r@ == label@ + " is not a real directory: "@ + path@,
{
    crate::text::cat3(label, " is not a real directory: ", path)
}

/// A directory that was found through its real path must lie in its scope.
pub fn check_inside(base: &str, canonical: &str) -> (r: Result<(), String>)
    ensures
        if components(base@).is_prefix_of(components(canonical@)) {
            r is Ok
        } else {
            r matches Err(e) && e@ == "knowledge root escapes its scope: "@ + canonical@
        },
{
    if begins_with(&components_of(canonical), &components_of(base)) {
        Ok(())
    } else {
        Err(cat2("knowledge root escapes its scope: ", canonical))
    }
}

/// The directory that is reached from a root through some parts.
pub open spec fn reached(root: Seq<char>, parts: Seq<Part<Seq<char>>>) -> Seq<char>
    decreases parts.len(),
{
    if parts.len() == 0 {
        root
    } else {
        joined_path(reached(root, parts.drop_last()), part_text(parts.last()))
    }
}

/// The directories from a root down to another one, without the root.
pub open spec fn way_down(root: Seq<char>, parent: Seq<char>) -> Seq<Seq<char>> {
    let below = components(parent).skip(components(root).len() as int);
    Seq::new(below.len(), |k: int| reached(root, below.take(k + 1)))
}

pub open spec fn names_from(parts: Seq<Part<Seq<char>>>, from: int) -> bool {
    forall|k: int| from <= k < parts.len() ==> #[trigger] parts[k] is Name
}

/// The directories that are passed on the way from a scope's root to a parent,
/// each of which is looked at before the next.
pub fn passages(root: &str, parent: &str) -> (r: Result<Vec<String>, String>)
    ensures
        if !components(root@).is_prefix_of(components(parent@)) {
            r matches Err(e) && e@ == "knowledge move parent escapes scope root: "@ + parent@
        } else if !names_from(components(parent@), components(root@).len() as int) {
            r matches Err(e) && e@ == "knowledge move parent is invalid: "@ + parent@
        } else {
            r matches Ok(way) && views(way@) == way_down(root@, parent@)
        },
{
    let parts = components_of(parent);
    let above = components_of(root);
    let ghost all = components(parent@);
    assert(part_views(parts@).len() == parts@.len());
    assert(part_views(above@).len() == above@.len());
    if !begins_with(&parts, &above) {
        return Err(cat2("knowledge move parent escapes scope root: ", parent));
    }
    let start: usize = above.len();
    let end: usize = parts.len();
    let mut way: Vec<String> = Vec::new();
    let mut here: String = root.to_owned();
    let mut k: usize = start;
    let ghost below = all.skip(start as int);
    assert(below.take(0) =~= Seq::<Part<Seq<char>>>::empty());
    let ghost wanted = way_down(root@, parent@);
    assert(views(way@) =~= wanted.take(0));
    while k < end
        invariant
            start <= k <= end,
            end == parts@.len(),
            all == part_views(parts@),
            all == components(parent@),
            start == components(root@).len(),
            components(root@).is_prefix_of(all),
            wanted == way_down(root@, parent@),
            below == all.skip(start as int),
            here@ == reached(root@, below.take(k - start)),
            forall|j: int| start <= j < k ==> #[trigger] all[j] is Name,
            views(way@) == wanted.take(k - start),
        decreases end - k,
    {
        assert(all[k as int] == parts@[k as int]@);
        let name = match &parts[k] {
            Part::Name(name) => name.as_str(),
            _ => return Err(cat2("knowledge move parent is invalid: ", parent)),
        };
        proof {
            let now = below.take(k + 1 - start);
            assert(now.drop_last() =~= below.take(k - start));
            assert(now.last() == all[k as int]);
        }
        here = join_path(here.as_str(), name);
        let ghost before = way@;
        way.push(here.clone());
        proof {
            assert(here@ == wanted[k - start]);
            assert(views(way@) =~= views(before).push(here@));
            assert(wanted.take(k + 1 - start) =~= wanted.take(k - start).push(here@));
        }
        k = k + 1;
    }
    assert(wanted.take(end - start) =~= wanted);
    Ok(way)
}

/// A symlink is refused wherever a move would pass, look or begin.
pub proof fn law_links_are_refused(path: Seq<char>, create: bool)
    ensures
        presence_of(path, SeenView::Link) is Err,
        descent_of(path, SeenView::Link) is Err,
        passage_of(path, SeenView::Link, create) is Err,
{
}

/// A directory is only made where nothing is, and only if that is asked for.
pub proof fn law_only_missing_directories_are_made(path: Seq<char>, seen: SeenView, create: bool)
    requires
        passage_of(path, seen, create) == Ok::<bool, Seq<char>>(true),
    ensures
        create,
        seen is Missing,
{
}

/// A directory is there, is entered and is passed, and a link is refused; what is no directory is there but neither entered nor passed; and what
/// could not be looked at is an error.
pub proof fn law_what_is_seen_decides(path: Seq<char>, reason: Seq<char>, create: bool)
    ensures
        presence_of(path, SeenView::Link) is Err,
        descent_of(path, SeenView::Link) is Err,
        passage_of(path, SeenView::Link, create) is Err,
        presence_of(path, SeenView::Directory) == Ok::<bool, Seq<char>>(true),
        descent_of(path, SeenView::Directory) == Ok::<bool, Seq<char>>(true),
        passage_of(path, SeenView::Directory, create) == Ok::<bool, Seq<char>>(false),
        presence_of(path, SeenView::Other) == Ok::<bool, Seq<char>>(true),
        descent_of(path, SeenView::Other) == Ok::<bool, Seq<char>>(false),
        passage_of(path, SeenView::Other, create) is Err,
        presence_of(path, SeenView::Missing(reason)) == Ok::<bool, Seq<char>>(false),
        descent_of(path, SeenView::Missing(reason)) is Err,
        passage_of(path, SeenView::Missing(reason), true) == Ok::<bool, Seq<char>>(true),
        passage_of(path, SeenView::Missing(reason), false) is Err,
        presence_of(path, SeenView::Failed(reason)) is Err,
        descent_of(path, SeenView::Failed(reason)) is Err,
        passage_of(path, SeenView::Failed(reason), create) is Err,
{
}

/// The way down to a directory passes each directory between, one part further each
/// time, and ends at the directory itself.
pub proof fn law_way_down_passes_each_directory(root: Seq<char>, parent: Seq<char>, k: int)
    requires
        components(root).is_prefix_of(components(parent)),
        names_from(components(parent), components(root).len() as int),
        0 <= k < way_down(root, parent).len(),
    ensures
        way_down(root, parent).len() == components(parent).len() - components(root).len(),
        components(way_down(root, parent)[k]) == components(parent).take(
            components(root).len() + k + 1,
        ),
{
    lemma_reached(root, parent, k + 1);
}

proof fn lemma_reached(root: Seq<char>, parent: Seq<char>, n: int)
    requires
        components(root).is_prefix_of(components(parent)),
        names_from(components(parent), components(root).len() as int),
        0 <= n <= components(parent).len() - components(root).len(),
    ensures
        components(
            reached(root, components(parent).skip(components(root).len() as int).take(n)),
        ) == components(parent).take(components(root).len() + n),
    decreases n,
{
    let all = components(parent);
    let start = components(root).len() as int;
    let below = all.skip(start);
    if n == 0 {
        assert(below.take(0) =~= Seq::<Part<Seq<char>>>::empty());
        assert(all.take(start) =~= components(root));
    } else {
        lemma_reached(root, parent, n - 1);
        let here = below.take(n);
        assert(here.drop_last() =~= below.take(n - 1));
        let part = all[start + n - 1];
        assert(here.last() == part);
        law_names_stand_alone(parent, start + n - 1);
        let name = part->Name_0;
        assert(leads_down(name)) by {
            assert(components(name)[0] is Name);
        }
        law_leading_down_stays_below(reached(root, here.drop_last()), name);
        assert(all.take(start + n - 1) + seq![part] =~= all.take(start + n));
    }
}

} // verus!
