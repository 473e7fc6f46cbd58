//! A provider's circuit breaker: closed, open for a cooldown, or half-open with
//! one probe under way.

use vstd::prelude::*;

verus! {

/// Times are milliseconds of a clock that never goes back. `generation` changes
/// whenever results of calls that began earlier stop counting.
#[derive(Debug, Clone, Copy, PartialEq, Eq, Structural)]
pub struct Circuit {
    pub consecutive_failures: u32,
    pub opened_at: Option<u64>,
    pub half_open_probe: Option<u64>,
    pub generation: u64,
}

/// What a circuit says to a call.
#[derive(Debug, Clone, Copy, PartialEq, Eq, Structural)]
pub enum Verdict {
    Pass,
    ProbeInProgress,
    OpenFor(u64),
}

/// What a call gets that asks to start.
#[derive(Debug, Clone, Copy, PartialEq, Eq, Structural)]
pub enum Grant {
    /// A call on a closed circuit.
    Closed,
    /// The one probe of a half-open circuit.
    Probe(u64),
    Refused(Verdict),
}

pub open spec fn bumped(generation: u64) -> u64 {
    if generation == u64::MAX {
        0
    } else {
        (generation + 1) as u64
    }
}

/// Whole seconds from `at` to `now`.
pub open spec fn seconds_since(at: u64, now: u64) -> u64 {
    if now < at {
        0
    } else {
        ((now - at) / 1000) as u64
    }
}

impl Circuit {
    pub open spec fn fresh() -> Circuit {
        Circuit { consecutive_failures: 0, opened_at: None, half_open_probe: None, generation: 0 }
    }

    /// How long the circuit has been open.
    pub open spec fn open_seconds(self, now: u64) -> u64 {
        match self.opened_at {
            Some(at) => seconds_since(at, now),
            None => 0,
        }
    }

    /// Whether a call may compete to start; nothing changes.
    pub open spec fn verdict(self, threshold: u32, cooldown: u64, now: u64) -> Verdict {
        if threshold == 0 || self.consecutive_failures < threshold {
            Verdict::Pass
        } else if self.half_open_probe is Some {
            Verdict::ProbeInProgress
        } else if self.open_seconds(now) >= cooldown {
            Verdict::Pass
        } else {
            Verdict::OpenFor((cooldown - self.open_seconds(now)) as u64)
        }
    }

    /// The circuit under a threshold that may be new to it: enough failures
    /// open it now, too few close it.
    pub open spec fn normalized(self, threshold: u32, now: u64) -> Circuit {
        if self.consecutive_failures >= threshold {
            if self.opened_at is None {
                Circuit {
                    opened_at: Some(now),
                    generation: bumped(self.generation),
                    ..self
                }
            } else {
                self
            }
        } else {
            Circuit {
                opened_at: None,
                half_open_probe: None,
                generation: if self.opened_at is Some || self.half_open_probe is Some {
                    bumped(self.generation)
                } else {
                    self.generation
                },
                ..self
            }
        }
    }

    /// What a call gets that is about to start; `id` names the probe.
    pub open spec fn grant(self, threshold: u32, cooldown: u64, now: u64, id: u64) -> Grant {
        let c = self.normalized(threshold, now);
        if c.consecutive_failures < threshold {
            Grant::Closed
        } else if c.open_seconds(now) < cooldown {
            Grant::Refused(Verdict::OpenFor((cooldown - c.open_seconds(now)) as u64))
        } else if c.half_open_probe is Some {
            Grant::Refused(Verdict::ProbeInProgress)
        } else {
            Grant::Probe(id)
        }
    }

    /// The circuit after such a call asked.
    pub open spec fn claimed(self, threshold: u32, cooldown: u64, now: u64, id: u64) -> Circuit {
        let c = self.normalized(threshold, now);
        if self.grant(threshold, cooldown, now, id) is Probe {
            Circuit { half_open_probe: Some(id), ..c }
        } else {
            c
        }
    }

    /// The probe `id` of this generation is given up.
    pub open spec fn released(self, generation: u64, id: u64) -> Circuit {
        if self.generation == generation && self.half_open_probe == Some(id) {
            Circuit { half_open_probe: None, ..self }
        } else {
            self
        }
    }

    /// A result counts unless a probe is under way that is not the caller's, or
    /// the caller must hold a lease of this generation and does not.
    pub open spec fn counts(self, lease: Option<(u64, Option<u64>)>, enforce: bool) -> bool {
        let probe = match lease {
            Some((_, probe)) => probe,
            None => None,
        };
        &&& enforce ==> lease is Some && (lease->0).0 == self.generation
        &&& self.half_open_probe is Some ==> self.half_open_probe == probe
    }

    /// The circuit after the result of a call.
    pub open spec fn recorded(
        self,
        success: bool,
        lease: Option<(u64, Option<u64>)>,
        enforce: bool,
        threshold: u32,
        cooldown: u64,
        now: u64,
    ) -> Circuit {
        if threshold == 0 || !self.counts(lease, enforce) {
            self
        } else {
            let was_probe = self.half_open_probe is Some;
            let expired = self.consecutive_failures >= threshold && self.opened_at is Some
                && self.open_seconds(now) >= cooldown;
            if success {
                Circuit {
                    consecutive_failures: 0,
                    opened_at: None,
                    half_open_probe: None,
                    generation: if was_probe {
                        bumped(self.generation)
                    } else {
                        self.generation
                    },
                }
            } else {
                let failures = if self.consecutive_failures == u32::MAX {
                    u32::MAX
                } else {
                    (self.consecutive_failures + 1) as u32
                };
                let reopens = was_probe || expired || self.opened_at is None;
                Circuit {
                    consecutive_failures: failures,
                    half_open_probe: None,
                    opened_at: if failures >= threshold && reopens {
                        Some(now)
                    } else {
                        self.opened_at
                    },
                    generation: if failures >= threshold && reopens {
                        bumped(self.generation)
                    } else {
                        self.generation
                    },
                }
            }
        }
    }

    /// A circuit that is switched off forgets its past.
    pub open spec fn reset(self) -> Circuit {
        Circuit { generation: bumped(self.generation), ..Circuit::fresh() }
    }

    pub fn new() -> (r: Circuit)
        ensures
            r == Circuit::fresh(),
    {
        Circuit { consecutive_failures: 0, opened_at: None, half_open_probe: None, generation: 0 }
    }

    pub fn elapsed(&self, now: u64) -> (r: u64)
        ensures
            r == self.open_seconds(now),
    {
        match self.opened_at {
            Some(at) => {
                if now < at {
                    0
                } else {
                    (now - at) / 1000
                }
            },
            None => 0,
        }
    }

    pub fn check(&self, threshold: u32, cooldown: u64, now: u64) -> (r: Verdict)
        ensures
            r == self.verdict(threshold, cooldown, now),
    {
        if threshold == 0 || self.consecutive_failures < threshold {
            return Verdict::Pass;
        }
        if self.half_open_probe.is_some() {
            return Verdict::ProbeInProgress;
        }
        let elapsed: u64 = self.elapsed(now);
        if elapsed >= cooldown {
            Verdict::Pass
        } else {
            Verdict::OpenFor(cooldown - elapsed)
        }
    }

    fn bump(&mut self)
        ensures
            *final(self) == (Circuit { generation: bumped(old(self).generation), ..*old(self) }),
    {
        self.generation = self.generation.wrapping_add(1);
    }

    pub fn normalize(&mut self, threshold: u32, now: u64)
        ensures
            *final(self) == old(self).normalized(threshold, now),
    {
        if self.consecutive_failures >= threshold {
            if self.opened_at.is_none() {
                self.opened_at = Some(now);
                self.bump();
            }
        } else {
            if self.opened_at.is_some() || self.half_open_probe.is_some() {
                self.bump();
            }
            self.opened_at = None;
            self.half_open_probe = None;
        }
    }

    pub fn claim(&mut self, threshold: u32, cooldown: u64, now: u64, id: u64) -> (r: Grant)
        ensures
            r == old(self).grant(threshold, cooldown, now, id),
            *final(self) == old(self).claimed(threshold, cooldown, now, id),
    {
        self.normalize(threshold, now);
        if self.consecutive_failures < threshold {
            return Grant::Closed;
        }
        let elapsed: u64 = self.elapsed(now);
        if elapsed < cooldown {
            return Grant::Refused(Verdict::OpenFor(cooldown - elapsed));
        }
        if self.half_open_probe.is_some() {
            return Grant::Refused(Verdict::ProbeInProgress);
        }
        self.half_open_probe = Some(id);
        Grant::Probe(id)
    }

    pub fn release(&mut self, generation: u64, id: u64)
        ensures
            *final(self) == old(self).released(generation, id),
    {
        if self.generation == generation {
            if let Some(probe) = self.half_open_probe {
                if probe == id {
                    self.half_open_probe = None;
                }
            }
        }
    }

    pub fn record(
        &mut self,
        success: bool,
        lease: Option<(u64, Option<u64>)>,
        enforce: bool,
        threshold: u32,
        cooldown: u64,
        now: u64,
    )
        ensures
            *final(self) == old(self).recorded(success, lease, enforce, threshold, cooldown, now),
    {
        if threshold == 0 {
            return;
        }
        let mut current: bool = false;
        let mut probe: Option<u64> = None;
        if let Some((generation, id)) = lease {
            current = generation == self.generation;
            probe = id;
        }
        if enforce && !current {
            return;
        }
        let mut was_probe: bool = false;
        if let Some(active) = self.half_open_probe {
            was_probe = match probe {
                Some(own) => own == active,
                None => false,
            };
            if !was_probe {
                return;
            }
        }
        let expired = self.consecutive_failures >= threshold && self.opened_at.is_some()
            && self.elapsed(now) >= cooldown;
        self.half_open_probe = None;
        if success {
            self.consecutive_failures = 0;
            self.opened_at = None;
            if was_probe {
                self.bump();
            }
        } else {
            self.consecutive_failures = self.consecutive_failures.saturating_add(1);
            if self.consecutive_failures >= threshold {
                if was_probe || expired || self.opened_at.is_none() {
                    self.opened_at = Some(now);
                    self.bump();
                }
            }
        }
    }

    pub fn switch_off(&mut self)
        ensures
            *final(self) == old(self).reset(),
    {
        let generation: u64 = self.generation.wrapping_add(1);
        *self = Circuit {
            consecutive_failures: 0,
            opened_at: None,
            half_open_probe: None,
            generation,
        };
    }
}

/// After the cooldown exactly one call gets to probe: while it is under way no
/// other call starts, however late it asks.
pub proof fn law_one_probe_at_a_time(
    c: Circuit,
    threshold: u32,
    cooldown: u64,
    now: u64,
    id: u64,
    later: u64,
    other: u64,
)
    requires
        threshold > 0,
        c.grant(threshold, cooldown, now, id) is Probe,
    ensures
        ({
            let after = c.claimed(threshold, cooldown, now, id);
            &&& after.grant(threshold, cooldown, later, other) is Refused
            &&& after.claimed(threshold, cooldown, later, other) == after
            &&& after.verdict(threshold, cooldown, later) == Verdict::ProbeInProgress
        }),
{
}

/// A probe that is given up can be claimed again.
pub proof fn law_released_probe_can_be_retried(
    c: Circuit,
    threshold: u32,
    cooldown: u64,
    now: u64,
    id: u64,
    other: u64,
)
    requires
        c.grant(threshold, cooldown, now, id) is Probe,
    ensures
        ({
            let after = c.claimed(threshold, cooldown, now, id);
            after.released(after.generation, id).grant(threshold, cooldown, now, other)
                == Grant::Probe(other)
        }),
{
}

/// While a probe is under way the result of any other call changes nothing.
pub proof fn law_only_the_probe_settles_itself(
    c: Circuit,
    success: bool,
    lease: Option<(u64, Option<u64>)>,
    enforce: bool,
    threshold: u32,
    cooldown: u64,
    now: u64,
)
    requires
        c.half_open_probe is Some,
        lease is None || (lease->0).1 != c.half_open_probe,
    ensures
        c.recorded(success, lease, enforce, threshold, cooldown, now) == c,
{
}

/// A call that began before the circuit opened cannot close it: opening starts
/// a new generation, and results of an older one do not count.
pub proof fn law_late_result_cannot_close(
    c: Circuit,
    threshold: u32,
    cooldown: u64,
    at: u64,
    now: u64,
    success: bool,
    lease: (u64, Option<u64>),
)
    requires
        c.consecutive_failures < threshold,
        c.opened_at is None,
        c.half_open_probe is None,
        lease.0 == c.generation,
        c.recorded(false, Some(lease), true, threshold, cooldown, at).consecutive_failures >= threshold,
    ensures
        ({
            let open = c.recorded(false, Some(lease), true, threshold, cooldown, at);
            &&& open.opened_at == Some(at)
            &&& open.recorded(success, Some(lease), true, threshold, cooldown, now) == open
        }),
{
}

/// The success of a probe closes the circuit, and its failure starts the
/// cooldown anew.
pub proof fn law_probe_decides(
    c: Circuit,
    threshold: u32,
    cooldown: u64,
    now: u64,
    id: u64,
    done: u64,
)
    requires
        c.grant(threshold, cooldown, now, id) is Probe,
    ensures
        ({
            let probing = c.claimed(threshold, cooldown, now, id);
            let lease = Some((probing.generation, Some(id)));
            &&& threshold > 0 ==> probing.recorded(
                true,
                lease,
                true,
                threshold,
                cooldown,
                done,
            ).grant(threshold, cooldown, done, id) == Grant::Closed
            &&& threshold > 0 && cooldown > 0 ==> probing.recorded(
                false,
                lease,
                true,
                threshold,
                cooldown,
                done,
            ).verdict(threshold, cooldown, done) == Verdict::OpenFor(cooldown)
        }),
{
}

/// A circuit that was switched off and on again starts clean.
pub proof fn law_switching_off_starts_clean(c: Circuit, threshold: u32, cooldown: u64, now: u64)
    ensures
        c.reset().verdict(threshold, cooldown, now) == Verdict::Pass,
        threshold > 0 ==> c.reset().normalized(threshold, now) == c.reset(),
{
}

/// A threshold that is lowered to the failures already seen opens the circuit
/// now; one that is raised above them closes it.
pub proof fn law_threshold_changes_apply_at_once(c: Circuit, threshold: u32, cooldown: u64, now: u64)
    requires
        threshold > 0,
        c.half_open_probe is None,
    ensures
        c.opened_at is None && c.consecutive_failures >= threshold && cooldown > 0 ==> c.normalized(
            threshold,
            now,
        ).verdict(threshold, cooldown, now) == Verdict::OpenFor(cooldown),
        c.consecutive_failures < threshold ==> {
            let closed = c.normalized(threshold, now);
            &&& closed.verdict(threshold, cooldown, now) == Verdict::Pass
            &&& closed.opened_at is None
        },
{
}

/// A result that counts is counted: a failure adds one to those in a row, a
/// success starts them anew and closes the circuit. Below the threshold calls go
/// through; the failure that reaches it opens the circuit for the whole cooldown.
/// Without a threshold nothing is counted and every call goes through.
pub proof fn law_results_are_counted(
    c: Circuit,
    lease: Option<(u64, Option<u64>)>,
    enforce: bool,
    threshold: u32,
    cooldown: u64,
    now: u64,
)
    requires
        c.counts(lease, enforce),
        c.consecutive_failures < u32::MAX,
    ensures
        ({
            let good = c.recorded(true, lease, enforce, threshold, cooldown, now);
            let bad = c.recorded(false, lease, enforce, threshold, cooldown, now);
            &&& threshold > 0 ==> {
                &&& good.consecutive_failures == 0
                &&& good.opened_at is None && good.half_open_probe is None
                &&& good.verdict(threshold, cooldown, now) == Verdict::Pass
                &&& bad.consecutive_failures == c.consecutive_failures + 1
                &&& bad.half_open_probe is None
                &&& c.consecutive_failures + 1 < threshold ==> bad.verdict(threshold, cooldown, now)
                    == Verdict::Pass
                &&& c.consecutive_failures + 1 >= threshold && (c.opened_at is None
                    || c.half_open_probe is Some) && cooldown > 0 ==> bad.verdict(
                    threshold,
                    cooldown,
                    now,
                ) == Verdict::OpenFor(cooldown) && bad.generation != c.generation
            }
            &&& threshold == 0 ==> good == c && bad == c
            &&& c.verdict(0, cooldown, now) == Verdict::Pass
        }),
{
}

/// A result of an earlier generation does not count where leases are enforced, nor
/// does one without a lease.
pub proof fn law_stale_results_do_not_count(
    c: Circuit,
    success: bool,
    lease: Option<(u64, Option<u64>)>,
    threshold: u32,
    cooldown: u64,
    now: u64,
)
    requires
        lease is None || (lease->0).0 != c.generation,
    ensures
        c.recorded(success, lease, true, threshold, cooldown, now) == c,
{
}

/// An open circuit stays so until its cooldown has passed, to the second, and says
/// how much of it is left; a clock that went back counts as no time.
pub proof fn law_cooldown_is_served(c: Circuit, threshold: u32, cooldown: u64, at: u64, now: u64)
    requires
        threshold > 0,
        c.consecutive_failures >= threshold,
        c.opened_at == Some(at),
        c.half_open_probe is None,
    ensures
        ({
            let passed: int = if now < at {
                0
            } else {
                (now - at) as int / 1000
            };
            match c.verdict(threshold, cooldown, now) {
                Verdict::Pass => passed >= cooldown,
                Verdict::OpenFor(left) => passed < cooldown && left == cooldown - passed,
                Verdict::ProbeInProgress => false,
            }
        }),
{
}

/// A call is granted exactly where the circuit lets one through: as a probe where
/// the cooldown has passed, and as any other below the threshold.
pub proof fn law_grants_follow_the_verdict(
    c: Circuit,
    threshold: u32,
    cooldown: u64,
    now: u64,
    id: u64,
)
    requires
        threshold > 0,
        c.consecutive_failures >= threshold ==> c.opened_at is Some,
    ensures
        ({
            let grant = c.grant(threshold, cooldown, now, id);
            let after = c.claimed(threshold, cooldown, now, id);
            &&& grant is Refused <==> c.verdict(threshold, cooldown, now) != Verdict::Pass
            &&& grant == Grant::Closed <==> c.consecutive_failures < threshold
            &&& grant is Probe ==> grant == Grant::Probe(id) && after.half_open_probe == Some(id)
            &&& after.consecutive_failures == c.consecutive_failures
            &&& grant is Refused ==> after == c
        }),
{
}

} // verus!
