//! Who works on which session: one owner per session, and one consolidation
//! pass at a time.

use crate::table::Table;
use crate::text::{cat3, cat4, str_eq};
use vstd::prelude::*;

verus! {

/// The sessions that have an owner in this process.
pub struct Registry {
    active: Table<bool>,
}

impl View for Registry {
    type V = Set<Seq<char>>;

    closed spec fn view(&self) -> Set<Seq<char>> {
        self.active@.dom()
    }
}

/// Ownership of one session, from `try_acquire` to `release`.
#[derive(Debug)]
pub struct SessionLease {
    session_id: String,
}

impl View for SessionLease {
    type V = Seq<char>;

    closed spec fn view(&self) -> Seq<char> {
        self.session_id@
    }
}

impl SessionLease {
    pub fn session_id(&self) -> (r: &str)
        ensures
            r@ == self@,
    {
        self.session_id.as_str()
    }
}

impl Registry {
    pub fn new() -> (r: Registry)
        ensures
            r@ == Set::<Seq<char>>::empty(),
    {
        let r = Registry { active: Table::new() };
        assert(r@ =~= Set::<Seq<char>>::empty());
        r
    }

    /// Gives the session back; the next `try_acquire` may have it.
    pub fn release(&mut self, lease: SessionLease)
        ensures
            final(self)@ == old(self)@.remove(lease@),
    {
        self.active.remove(lease.session_id.as_str());
        assert(self@ =~= old(self)@.remove(lease@));
    }
}

/// Whether a session is free.
pub open spec fn is_free(owned: Set<Seq<char>>, session_id: Seq<char>) -> bool {
    !owned.contains(session_id)
}

/// A session has one owner: while it is taken nobody else gets it, every other
/// session can be had as before, and giving it back leaves things as they were.
pub proof fn law_one_owner_per_session(owned: Set<Seq<char>>, taken: Seq<char>, other: Seq<char>)
    requires
        is_free(owned, taken),
    ensures
        !is_free(owned.insert(taken), taken),
        other != taken ==> is_free(owned.insert(taken), other) == is_free(owned, other),
        owned.insert(taken).remove(taken) == owned,
{
    assert(owned.insert(taken).remove(taken) =~= owned);
}

/// Takes the session unless it has an owner. `id_check` is what the validator
/// of identifiers said of `session_id`; its refusal is handed on.
pub fn try_acquire(registry: &mut Registry, session_id: &str, id_check: Result<(), String>) -> (r:
    Result<SessionLease, String>)
    ensures
        match id_check {
            Err(error) => r == Err::<SessionLease, String>(error) && final(registry)@ == old(
                registry,
            )@,
            Ok(_) => if !is_free(old(registry)@, session_id@) {
                &&& r matches Err(e)
                &&& e@ == "session "@ + session_id@ + " consolidation is active in this process"@
                &&& final(registry)@ == old(registry)@
            } else {
                &&& r matches Ok(lease)
                &&& lease@ == session_id@
                &&& final(registry)@ == old(registry)@.insert(session_id@)
            },
        },
{
    match id_check {
        Err(error) => Err(error),
        Ok(_) => {
            if registry.active.contains(session_id) {
                Err(cat3("session ", session_id, " consolidation is active in this process"))
            } else {
                registry.active.insert(session_id, true);
                assert(registry@ =~= old(registry)@.insert(session_id@));
                Ok(SessionLease { session_id: session_id.to_owned() })
            }
        },
    }
}

/// A lease speaks for its own session only.
pub fn validate(lease: &SessionLease, session_id: &str) -> (r: Result<(), String>)
    ensures
        if lease@ == session_id@ {
            r is Ok
        } else {
            r matches Err(e) && e@ == "consolidation lease "@ + lease@ + " does not match session "@
                + session_id@
        },
{
    if str_eq(lease.session_id.as_str(), session_id) {
        Ok(())
    } else {
        Err(
            cat4(
                "consolidation lease ",
                lease.session_id.as_str(),
                " does not match session ",
                session_id,
            ),
        )
    }
}

/// Whether a consolidation pass is running.
#[derive(Debug)]
pub struct PassGate {
    active: bool,
}

/// The right to run a pass, from `try_acquire_pass` to `release`.
#[derive(Debug)]
pub struct PassGuard {
    held: bool,
}

impl View for PassGate {
    type V = bool;

    closed spec fn view(&self) -> bool {
        self.active
    }
}

impl PassGate {
    pub fn new() -> (r: PassGate)
        ensures
            !r@,
    {
        PassGate { active: false }
    }

    /// One pass at a time: an overlapping one gets nothing.
    pub fn try_acquire_pass(&mut self) -> (r: Option<PassGuard>)
        ensures
            r is Some == !old(self)@,
            final(self)@,
    {
        if self.active {
            None
        } else {
            self.active = true;
            Some(PassGuard { held: true })
        }
    }

    pub fn release(&mut self, guard: PassGuard)
        ensures
            !final(self)@,
    {
        self.active = false;
    }
}

} // verus!
