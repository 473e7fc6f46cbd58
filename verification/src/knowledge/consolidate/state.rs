//! How far each session has been consolidated.

use crate::table::Table;
use crate::text::str_eq;
use vstd::prelude::*;

verus! {

/// Watermarks by session: `distilled` holds times of an older scheme,
/// `message_revisions` and `message_cursors` the revision and the digest of the
/// messages that were last checkpointed.
pub struct State {
    pub distilled: Table<u64>,
    pub message_revisions: Table<u64>,
    pub message_cursors: Table<String>,
}

#[verifier::ext_equal]
pub struct StateView {
    pub distilled: Map<Seq<char>, u64>,
    pub message_revisions: Map<Seq<char>, u64>,
    pub message_cursors: Map<Seq<char>, Seq<char>>,
}

impl View for State {
    type V = StateView;

    open spec fn view(&self) -> StateView {
        StateView {
            distilled: self.distilled@,
            message_revisions: self.message_revisions@,
            message_cursors: self.message_cursors@.map_values(|s: String| s@),
        }
    }
}

/// The value under `id`, zero where there is none.
pub open spec fn or_zero(map: Map<Seq<char>, u64>, id: Seq<char>) -> u64 {
    if map.contains_key(id) {
        map[id]
    } else {
        0
    }
}

impl StateView {
    pub open spec fn cursor(self, id: Seq<char>) -> Option<Seq<char>> {
        if self.message_cursors.contains_key(id) {
            Some(self.message_cursors[id])
        } else {
            None
        }
    }

    /// Any of the three watermarks knows the session.
    pub open spec fn knows(self, id: Seq<char>) -> bool {
        ||| self.message_cursors.contains_key(id)
        ||| self.message_revisions.contains_key(id)
        ||| self.distilled.contains_key(id)
    }

    /// A revision commits unless a newer one is already there; the same
    /// revision may replace its cursor.
    pub open spec fn checkpointed(self, id: Seq<char>, revision: u64, cursor: Seq<char>) -> StateView {
        if or_zero(self.message_revisions, id) > revision {
            self
        } else {
            StateView {
                message_revisions: self.message_revisions.insert(id, revision),
                message_cursors: self.message_cursors.insert(id, cursor),
                ..self
            }
        }
    }

    pub open spec fn without(self, id: Seq<char>) -> StateView {
        StateView {
            distilled: self.distilled.remove(id),
            message_revisions: self.message_revisions.remove(id),
            message_cursors: self.message_cursors.remove(id),
        }
    }

    /// Whether a snapshot of the session holds something that is not yet
    /// consolidated: its cursor is new, and the session is known or was touched
    /// at `since` or later.
    pub open spec fn eligible(self, id: Seq<char>, cursor: Seq<char>, updated_at: u64, since: u64) -> bool {
        self.cursor(id) != Some(cursor) && (self.knows(id) || updated_at >= since)
    }
}

impl State {
    pub fn new() -> (r: State)
        ensures
            r@ == (StateView {
                distilled: Map::empty(),
                message_revisions: Map::empty(),
                message_cursors: Map::empty(),
            }),
    {
        let r = State {
            distilled: Table::new(),
            message_revisions: Table::new(),
            message_cursors: Table::new(),
        };
        assert(r@.message_cursors =~= Map::<Seq<char>, Seq<char>>::empty());
        r
    }

    pub fn revision(&self, session_id: &str) -> (r: u64)
        ensures
            r == or_zero(self@.message_revisions, session_id@),
    {
        match self.message_revisions.get(session_id) {
            Some(revision) => *revision,
            None => 0,
        }
    }

    pub fn distilled_at(&self, session_id: &str) -> (r: u64)
        ensures
            r == or_zero(self@.distilled, session_id@),
    {
        match self.distilled.get(session_id) {
            Some(at) => *at,
            None => 0,
        }
    }

    /// Whether `cursor` is the one that was last checkpointed.
    pub fn cursor_is(&self, session_id: &str, cursor: &str) -> (r: bool)
        ensures
            r == (self@.cursor(session_id@) == Some(cursor@)),
    {
        match self.message_cursors.get(session_id) {
            Some(known) => str_eq(known.as_str(), cursor),
            None => false,
        }
    }

    /// Commits a processed snapshot; `false` says that a newer watermark was
    /// there and nothing changed.
    pub fn checkpoint_cursor(&mut self, session_id: &str, revision: u64, cursor: &str) -> (r: bool)
        ensures
            final(self)@ == old(self)@.checkpointed(session_id@, revision, cursor@),
            r == (or_zero(old(self)@.message_revisions, session_id@) <= revision),
    {
        if self.revision(session_id) > revision {
            return false;
        }
        let text: String = cursor.to_owned();
        self.message_revisions.insert(session_id, revision);
        self.message_cursors.insert(session_id, text);
        assert(self@.message_cursors =~= old(self)@.message_cursors.insert(session_id@, cursor@));
        true
    }

    /// Forgets the session; says whether there was anything to forget.
    pub fn remove_session(&mut self, session_id: &str) -> (r: bool)
        ensures
            final(self)@ == old(self)@.without(session_id@),
            r == old(self)@.knows(session_id@),
    {
        let a = self.distilled.remove(session_id);
        let b = self.message_revisions.remove(session_id);
        let c = self.message_cursors.remove(session_id);
        assert(self@.message_cursors =~= old(self)@.message_cursors.remove(session_id@));
        a || b || c
    }

    pub fn snapshot_is_eligible(&self, session_id: &str, cursor: &str, updated_at: u64, since: u64) -> (r:
        bool)
        ensures
            r == self@.eligible(session_id@, cursor@, updated_at, since),
    {
        if self.cursor_is(session_id, cursor) {
            return false;
        }
        self.message_cursors.contains(session_id) || self.message_revisions.contains(session_id)
            || self.distilled.contains(session_id) || updated_at >= since
    }
}

/// A checkpoint never lowers the revision of any session, and leaves every
/// other session as it was.
pub proof fn law_checkpoint_never_regresses(
    state: StateView,
    id: Seq<char>,
    revision: u64,
    cursor: Seq<char>,
    other: Seq<char>,
)
    ensures
        or_zero(state.checkpointed(id, revision, cursor).message_revisions, other) >= or_zero(
            state.message_revisions,
            other,
        ),
        other != id ==> {
            let after = state.checkpointed(id, revision, cursor);
            &&& after.cursor(other) == state.cursor(other)
            &&& or_zero(after.message_revisions, other) == or_zero(state.message_revisions, other)
        },
{
}

/// What a checkpoint committed is not consolidated again, and anything written
/// after it is, however old its time stamp.
pub proof fn law_checkpoint_settles_its_cursor_only(
    state: StateView,
    id: Seq<char>,
    revision: u64,
    cursor: Seq<char>,
    later: Seq<char>,
    updated_at: u64,
    since: u64,
)
    requires
        or_zero(state.message_revisions, id) <= revision,
    ensures
        !state.checkpointed(id, revision, cursor).eligible(id, cursor, updated_at, since),
        later != cursor ==> state.checkpointed(id, revision, cursor).eligible(
            id,
            later,
            updated_at,
            since,
        ),
{
}

/// A session that was removed is treated as one never seen.
pub proof fn law_removed_session_is_unknown(state: StateView, id: Seq<char>)
    ensures
        !state.without(id).knows(id),
        or_zero(state.without(id).message_revisions, id) == 0,
{
}

/// A checkpoint that is older than the one that is kept changes nothing; any other
/// is kept, with its revision and its cursor.
pub proof fn law_checkpoint_is_kept(state: StateView, id: Seq<char>, revision: u64, cursor: Seq<char>)
    ensures
        or_zero(state.message_revisions, id) > revision ==> state.checkpointed(id, revision, cursor)
            == state,
        or_zero(state.message_revisions, id) <= revision ==> state.checkpointed(
            id,
            revision,
            cursor,
        ).cursor(id) == Some(cursor) && or_zero(
            state.checkpointed(id, revision, cursor).message_revisions,
            id,
        ) == revision,
        state.checkpointed(id, revision, cursor).distilled == state.distilled,
{
}

/// A session that was never seen is taken up only where it changed since the given
/// time; one that is known whenever it moved past its cursor.
pub proof fn law_old_sessions_are_left_alone(
    state: StateView,
    id: Seq<char>,
    cursor: Seq<char>,
    updated_at: u64,
    since: u64,
)
    ensures
        !state.knows(id) ==> (state.eligible(id, cursor, updated_at, since) <==> updated_at >= since),
        state.knows(id) ==> (state.eligible(id, cursor, updated_at, since) <==> state.cursor(id)
            != Some(cursor)),
{
}

/// Forgetting a session changes nothing for the others.
pub proof fn law_others_are_remembered(state: StateView, id: Seq<char>, other: Seq<char>)
    requires
        other != id,
    ensures
        state.without(id).knows(other) == state.knows(other),
        state.without(id).cursor(other) == state.cursor(other),
        or_zero(state.without(id).message_revisions, other) == or_zero(
            state.message_revisions,
            other,
        ),
        or_zero(state.without(id).distilled, other) == or_zero(state.distilled, other),
{
}

} // verus!
