//! Requests per minute: a sliding window per account.

use crate::config::{Config, ProviderLimit};
use crate::table::Table;
use crate::text::{cat2, parts_of, split, starts, starts_with, str_eq};
use vstd::prelude::*;

verus! {

/// The width of the window in milliseconds.
pub const RPM_WINDOW: u64 = 60_000;

/// The windows of all accounts: each request by its number and its time.
pub struct RpmWindows {
    windows: Table<Vec<(u64, u64)>>,
    sequence: u64,
}

#[verifier::ext_equal]
pub struct RpmView {
    pub windows: Map<Seq<char>, Seq<(u64, u64)>>,
    pub sequence: u64,
}

impl View for RpmWindows {
    type V = RpmView;

    closed spec fn view(&self) -> RpmView {
        RpmView {
            windows: self.windows@.map_values(|w: Vec<(u64, u64)>| w@),
            sequence: self.sequence,
        }
    }
}

/// A place in a window that is held for a request that has not started yet. One
/// without a key is held where no limit applies.
#[derive(Debug)]
pub struct RpmReservation {
    pub key: Option<String>,
    pub id: u64,
}

/// Less than a window's width ago.
pub open spec fn recent(at: u64, now: u64) -> bool {
    now < at || now - at < RPM_WINDOW
}

/// A window without the requests that have slid out of it.
pub open spec fn pruned(window: Seq<(u64, u64)>, now: u64) -> Seq<(u64, u64)>
    decreases window.len(),
{
    if window.len() == 0 {
        Seq::empty()
    } else {
        let head = pruned(window.drop_last(), now);
        if recent(window.last().1, now) {
            head.push(window.last())
        } else {
            head
        }
    }
}

/// A window without the first request of this number.
pub open spec fn without(window: Seq<(u64, u64)>, id: u64) -> Seq<(u64, u64)>
    decreases window.len(),
{
    if window.len() == 0 {
        Seq::empty()
    } else if window[0].0 == id {
        window.subrange(1, window.len() as int)
    } else {
        seq![window[0]] + without(window.subrange(1, window.len() as int), id)
    }
}

impl RpmView {
    pub open spec fn window(self, key: Seq<char>) -> Seq<(u64, u64)> {
        if self.windows.contains_key(key) {
            self.windows[key]
        } else {
            Seq::empty()
        }
    }

    pub open spec fn with(self, key: Seq<char>, window: Seq<(u64, u64)>) -> RpmView {
        RpmView { windows: self.windows.insert(key, window), ..self }
    }

    pub open spec fn pruned_at(self, key: Seq<char>, now: u64) -> RpmView {
        self.with(key, pruned(self.window(key), now))
    }

    /// No further request fits into the window.
    pub open spec fn full(self, key: Seq<char>, limit: Option<u32>, now: u64) -> bool {
        limit is Some && pruned(self.window(key), now).len() >= limit->0
    }

    /// A place is held for one more request.
    pub open spec fn reserved(self, key: Seq<char>, now: u64) -> RpmView {
        RpmView {
            windows: self.windows.insert(
                key,
                pruned(self.window(key), now).push((self.sequence, now)),
            ),
            sequence: next_number(self.sequence),
        }
    }

    /// A place that was held is given back.
    pub open spec fn cancelled(self, key: Seq<char>, id: u64) -> RpmView {
        if self.windows.contains_key(key) {
            self.with(key, without(self.windows[key], id))
        } else {
            self
        }
    }

    /// How long until a request fits, in milliseconds.
    pub open spec fn wait(self, key: Seq<char>, limit: Option<u32>, now: u64) -> u64 {
        if !self.full(key, limit, now) {
            0
        } else {
            let oldest = pruned(self.window(key), now)[0].1;
            if now < oldest {
                RPM_WINDOW
            } else {
                (RPM_WINDOW - (now - oldest)) as u64
            }
        }
    }
}

/// A configured provider that an account key belongs to.
pub open spec fn owns(provider: Seq<char>, key: Seq<char>) -> bool {
    key == provider || starts(key, provider + ":"@)
}

/// The provider of an account key: the longest configured one that owns it,
/// else what stands before the first colon.
pub open spec fn is_provider_of(provider: Seq<char>, key: Seq<char>, limits: Map<Seq<char>, ProviderLimit>) -> bool {
    if exists|p: Seq<char>| #[trigger] limits.contains_key(p) && owns(p, key) {
        &&& limits.contains_key(provider)
        &&& owns(provider, key)
        &&& forall|p: Seq<char>| #[trigger]
            limits.contains_key(p) && owns(p, key) ==> p.len() <= provider.len()
    } else {
        provider == parts_of(key, ':')[0]
    }
}

/// Two owners of one key that are equally long are the same.
pub proof fn lemma_owner_unique(p: Seq<char>, q: Seq<char>, key: Seq<char>)
    requires
        owns(p, key),
        owns(q, key),
        p.len() == q.len(),
    ensures
        p == q,
{
    if key != p {
        assert(p =~= key.subrange(0, p.len() as int)) by {
            assert(key.subrange(0, (p + ":"@).len() as int) == p + ":"@);
            assert forall|i: int| 0 <= i < p.len() implies p[i] == key[i] by {
                assert((p + ":"@)[i] == key.subrange(0, (p + ":"@).len() as int)[i]);
            }
        }
    }
    if key != q {
        assert(q =~= key.subrange(0, q.len() as int)) by {
            assert(key.subrange(0, (q + ":"@).len() as int) == q + ":"@);
            assert forall|i: int| 0 <= i < q.len() implies q[i] == key[i] by {
                assert((q + ":"@)[i] == key.subrange(0, (q + ":"@).len() as int)[i]);
            }
        }
    }
    assert(p =~= key.subrange(0, p.len() as int));
    assert(q =~= key.subrange(0, q.len() as int));
}

/// The requests per minute that an account may make: no limit where none, or
/// zero, is configured.
pub open spec fn limit_for(provider: Seq<char>, config: Config) -> Option<u32> {
    match config.limit(provider).rpm {
        Some(n) if n > 0 => Some(n),
        _ => None,
    }
}

fn char_count(s: &str) -> (r: usize)
    ensures
        r == s@.len(),
{
    crate::text::chars_of(s).len()
}

pub fn provider_for_account_key(config: &Config, key: &str) -> (r: String)
    ensures
        is_provider_of(r@, key@, config.limits.providers@),
{
    let providers = &config.limits.providers;
    let n: usize = providers.len();
    let ghost order = providers.order();
    let mut best: Option<String> = None;
    let mut i: usize = 0;
    while i < n
        invariant
            i <= n == order.len(),
            order == providers.order(),
            providers@ == config.limits.providers@,
            forall|k: Seq<char>| #[trigger] providers@.contains_key(k) <==> order.contains(k),
            match best {
                Some(b) => {
                    &&& providers@.contains_key(b@)
                    &&& owns(b@, key@)
                    &&& forall|j: int|
                        0 <= j < i && owns(#[trigger] order[j], key@) ==> order[j].len() <= b@.len()
                },
                None => forall|j: int| 0 <= j < i ==> !owns(#[trigger] order[j], key@),
            },
        decreases n - i,
    {
        let (provider, _) = providers.entry(i);
        let prefix = cat2(provider.as_str(), ":");
        if str_eq(key, provider.as_str()) || starts_with(key, prefix.as_str()) {
            let longer = match &best {
                Some(b) => char_count(provider.as_str()) > char_count(b.as_str()),
                None => true,
            };
            if longer {
                best = Some(provider.clone());
            }
        }
        i = i + 1;
    }
    proof {
        assert forall|p: Seq<char>| #[trigger] providers@.contains_key(p) && owns(p, key@) implies best is Some
            && p.len() <= best->0@.len() by {
            assert(order.contains(p));
            let j = choose|j: int| 0 <= j < order.len() && order[j] == p;
            assert(owns(order[j], key@));
        }
    }
    match best {
        Some(provider) => provider,
        None => {
            let parts = split(key, ':');
            let first = parts[0].clone();
            assert(crate::text::views(parts@)[0] == first@);
            first
        },
    }
}

/// The limit that applies to an account key.
pub open spec fn is_limit_of(limit: Option<u32>, key: Seq<char>, config: Config) -> bool {
    exists|p: Seq<char>| #[trigger]
        is_provider_of(p, key, config.limits.providers@) && limit == limit_for(p, config)
}

/// The one limit that applies to an account key.
pub open spec fn limit_at(key: Seq<char>, config: Config) -> Option<u32> {
    choose|limit: Option<u32>| is_limit_of(limit, key, config)
}

pub fn rpm_limit(config: &Config, key: &str) -> (r: Option<u32>)
    ensures
        is_limit_of(r, key@, *config),
        r == limit_at(key@, *config),
        r is Some ==> r->0 > 0,
{
    let provider = provider_for_account_key(config, key);
    let limit: Option<u32> = match config.limit_of(provider.as_str()).rpm {
        Some(n) => if n > 0 {
            Some(n)
        } else {
            None
        },
        None => None,
    };
    proof {
        assert(is_limit_of(limit, key@, *config));
        law_limit_is_unique(limit, limit_at(key@, *config), key@, *config);
    }
    limit
}

/// Only one limit applies to an account key.
pub proof fn law_limit_is_unique(a: Option<u32>, b: Option<u32>, key: Seq<char>, config: Config)
    requires
        is_limit_of(a, key, config),
        is_limit_of(b, key, config),
    ensures
        a == b,
{
    let limits = config.limits.providers@;
    let p = choose|p: Seq<char>| #[trigger]
        is_provider_of(p, key, limits) && a == limit_for(p, config);
    let q = choose|q: Seq<char>| #[trigger]
        is_provider_of(q, key, limits) && b == limit_for(q, config);
    if exists|o: Seq<char>| #[trigger] limits.contains_key(o) && owns(o, key) {
        assert(limits.contains_key(p) && owns(p, key));
        assert(limits.contains_key(q) && owns(q, key));
        lemma_owner_unique(p, q, key);
    }
}

impl RpmWindows {
    pub fn new() -> (r: RpmWindows)
        ensures
            r@ == (RpmView { windows: Map::empty(), sequence: 0 }),
    {
        let r = RpmWindows { windows: Table::new(), sequence: 0 };
        assert(r@.windows =~= Map::<Seq<char>, Seq<(u64, u64)>>::empty());
        r
    }

    fn put(&mut self, key: &str, window: Vec<(u64, u64)>)
        ensures
            final(self)@ == old(self)@.with(key@, window@),
    {
        let ghost w = window@;
        self.windows.insert(key, window);
        assert(self@.windows =~= old(self)@.windows.insert(key@, w));
    }

    fn pruned_window(&self, key: &str, now: u64) -> (r: Vec<(u64, u64)>)
        ensures
            r@ == pruned(self@.window(key@), now),
    {
        let mut out: Vec<(u64, u64)> = Vec::new();
        if let Some(window) = self.windows.get(key) {
            let mut i: usize = 0;
            assert(out@ =~= pruned(window@.take(0), now));
            while i < window.len()
                invariant
                    i <= window@.len(),
                    out@ == pruned(window@.take(i as int), now),
                decreases window@.len() - i,
            {
                assert(window@.take(i + 1).drop_last() =~= window@.take(i as int));
                let stamp: (u64, u64) = window[i];
                if now < stamp.1 || now - stamp.1 < RPM_WINDOW {
                    out.push(stamp);
                }
                i = i + 1;
            }
            assert(window@.take(i as int) =~= window@);
            assert(self@.window(key@) == window@);
        } else {
            assert(self@.window(key@) =~= Seq::empty());
        }
        out
    }

    /// Whether the window is full.
    pub fn is_full(&self, key: &str, limit: Option<u32>, now: u64) -> (r: bool)
        ensures
            r == self@.full(key@, limit, now),
    {
        match limit {
            None => false,
            Some(n) => self.pruned_window(key, now).len() as u64 >= n as u64,
        }
    }

    /// How long to wait until a request fits.
    pub fn wait_ms(&self, key: &str, limit: Option<u32>, now: u64) -> (r: u64)
        requires
            limit is Some ==> limit->0 > 0,
        ensures
            r == self@.wait(key@, limit, now),
    {
        match limit {
            None => 0,
            Some(n) => {
                let window = self.pruned_window(key, now);
                if (window.len() as u64) < n as u64 {
                    return 0;
                }
                let oldest: u64 = window[0].1;
                proof {
                    lemma_pruned_recent(self@.window(key@), now, 0);
                }
                if now < oldest {
                    RPM_WINDOW
                } else {
                    RPM_WINDOW - (now - oldest)
                }
            },
        }
    }

    /// Holds a place in the window, unless it is full.
    pub fn reserve(&mut self, key: &str, limit: Option<u32>, now: u64) -> (r: Option<RpmReservation>)
        ensures
            match limit {
                None => {
                    &&& r matches Some(reservation)
                    &&& reservation.key is None
                    &&& final(self)@ == old(self)@
                },
                Some(_) => if old(self)@.full(key@, limit, now) {
                    &&& r is None
                    &&& final(self)@ == old(self)@.pruned_at(key@, now)
                } else {
                    &&& r matches Some(reservation)
                    &&& reservation.key matches Some(held)
                    &&& held@ == key@
                    &&& reservation.id == old(self)@.sequence
                    &&& final(self)@ == old(self)@.reserved(key@, now)
                },
            },
    {
        match limit {
            None => Some(RpmReservation { key: None, id: 0 }),
            Some(n) => {
                let mut window = self.pruned_window(key, now);
                if window.len() as u64 >= n as u64 {
                    self.put(key, window);
                    return None;
                }
                let id: u64 = self.sequence;
                window.push((id, now));
                self.put(key, window);
                self.sequence = id.wrapping_add(1);
                Some(RpmReservation { key: Some(key.to_owned()), id })
            },
        }
    }

    /// Gives a place back that was held for a request that never started.
    pub fn cancel(&mut self, reservation: RpmReservation)
        ensures
            final(self)@ == (match reservation.key {
                Some(key) => old(self)@.cancelled(key@, reservation.id),
                None => old(self)@,
            }),
    {
        if let Some(key) = reservation.key {
            let mut out: Option<Vec<(u64, u64)>> = None;
            if let Some(window) = self.windows.get(key.as_str()) {
                let mut kept: Vec<(u64, u64)> = Vec::new();
                let mut i: usize = 0;
                assert(window@.subrange(0, window@.len() as int) =~= window@);
                assert(kept@ + without(window@, reservation.id) =~= without(
                    window@,
                    reservation.id,
                ));
                while i < window.len() && window[i].0 != reservation.id
                    invariant
                        i <= window@.len(),
                        kept@ + without(
                            window@.subrange(i as int, window@.len() as int),
                            reservation.id,
                        ) == without(window@, reservation.id),
                    decreases window@.len() - i,
                {
                    let ghost rest = window@.subrange(i as int, window@.len() as int);
                    assert(rest.subrange(1, rest.len() as int) =~= window@.subrange(
                        i + 1,
                        window@.len() as int,
                    ));
                    let ghost before = kept@;
                    kept.push(window[i]);
                    assert(kept@ + without(
                        window@.subrange(i + 1, window@.len() as int),
                        reservation.id,
                    ) =~= before + without(rest, reservation.id));
                    i = i + 1;
                }
                let ghost rest = window@.subrange(i as int, window@.len() as int);
                if i < window.len() {
                    i = i + 1;
                    assert(rest.subrange(1, rest.len() as int) =~= window@.subrange(
                        i as int,
                        window@.len() as int,
                    ));
                }
                let ghost tail = window@.subrange(i as int, window@.len() as int);
                assert(tail =~= without(rest, reservation.id));
                let ghost head = kept@;
                let from: usize = i;
                while i < window.len()
                    invariant
                        from <= i <= window@.len(),
                        kept@ == head + window@.subrange(from as int, i as int),
                    decreases window@.len() - i,
                {
                    kept.push(window[i]);
                    i = i + 1;
                    assert(kept@ =~= head + window@.subrange(from as int, i as int));
                }
                assert(kept@ =~= without(window@, reservation.id));
                out = Some(kept);
            }
            if let Some(kept) = out {
                self.put(key.as_str(), kept);
            }
        }
    }
}

pub open spec fn next_number(n: u64) -> u64 {
    if n == u64::MAX {
        0
    } else {
        (n + 1) as u64
    }
}

proof fn lemma_pruned_recent(window: Seq<(u64, u64)>, now: u64, i: int)
    requires
        0 <= i < pruned(window, now).len(),
    ensures
        recent(pruned(window, now)[i].1, now),
    decreases window.len(),
{
    if window.len() > 0 {
        let head = pruned(window.drop_last(), now);
        if i < head.len() {
            lemma_pruned_recent(window.drop_last(), now, i);
        }
    }
}

proof fn lemma_without_last(window: Seq<(u64, u64)>, stamp: (u64, u64))
    requires
        forall|i: int| 0 <= i < window.len() ==> (#[trigger] window[i]).0 != stamp.0,
    ensures
        without(window.push(stamp), stamp.0) == window,
    decreases window.len(),
{
    let all = window.push(stamp);
    if window.len() == 0 {
        assert(all.subrange(1, all.len() as int) =~= window);
    } else {
        let rest = window.subrange(1, window.len() as int);
        assert(all.subrange(1, all.len() as int) =~= rest.push(stamp));
        assert forall|i: int| 0 <= i < rest.len() implies (#[trigger] rest[i]).0 != stamp.0 by {
            assert(rest[i] == window[i + 1]);
        }
        lemma_without_last(rest, stamp);
        assert(all[0] == window[0]);
        assert(seq![window[0]] + rest =~= window);
    }
}

/// A request that never starts uses up nothing: taking its place back leaves
/// its window as it was, and the others too.
pub proof fn law_cancelled_reservation_costs_nothing(rpm: RpmView, key: Seq<char>, other: Seq<char>, now: u64)
    requires
        forall|i: int|
            0 <= i < pruned(rpm.window(key), now).len() ==> (#[trigger] pruned(
                rpm.window(key),
                now,
            )[i]).0 != rpm.sequence,
    ensures
        rpm.reserved(key, now).cancelled(key, rpm.sequence).window(key) == pruned(
            rpm.window(key),
            now,
        ),
        other != key ==> rpm.reserved(key, now).cancelled(key, rpm.sequence).window(other)
            == rpm.window(other),
{
    lemma_without_last(pruned(rpm.window(key), now), (rpm.sequence, now));
}

/// A window never holds more requests than its limit.
pub proof fn law_window_within_limit(rpm: RpmView, key: Seq<char>, limit: u32, now: u64)
    requires
        !rpm.full(key, Some(limit), now),
    ensures
        rpm.reserved(key, now).window(key).len() <= limit,
{
}

proof fn lemma_pruned(window: Seq<(u64, u64)>, now: u64)
    ensures
        pruned(window, now).len() <= window.len(),
        forall|e: (u64, u64)| #[trigger]
            pruned(window, now).contains(e) <==> window.contains(e) && (now < e.1 || now - e.1
                < 60_000),
        (forall|i: int| 0 <= i < window.len() ==> now < (#[trigger] window[i]).1 || now - window[i].1
            < 60_000) ==> pruned(window, now) == window,
    decreases window.len(),
{
    if window.len() > 0 {
        let init = window.drop_last();
        let last = window.last();
        let head = pruned(init, now);
        let out = pruned(window, now);
        lemma_pruned(init, now);
        assert forall|e: (u64, u64)| #[trigger] out.contains(e) <==> window.contains(e) && (now < e.1
            || now - e.1 < 60_000) by {
            if out.contains(e) {
                let i = choose|i: int| 0 <= i < out.len() && out[i] == e;
                if i < head.len() {
                    assert(head[i] == e);
                    assert(head.contains(e));
                    let k = choose|k: int| 0 <= k < init.len() && init[k] == e;
                    assert(window[k] == e);
                } else {
                    assert(window[window.len() - 1] == e);
                }
            }
            if window.contains(e) && (now < e.1 || now - e.1 < 60_000) {
                let k = choose|k: int| 0 <= k < window.len() && window[k] == e;
                if k < init.len() {
                    assert(init[k] == e);
                    assert(head.contains(e));
                    let i = choose|i: int| 0 <= i < head.len() && head[i] == e;
                    assert(out[i] == e);
                } else {
                    assert(out.last() == e);
                }
            }
        }
        if forall|i: int| 0 <= i < window.len() ==> now < (#[trigger] window[i]).1 || now
            - window[i].1 < 60_000 {
            assert forall|i: int| 0 <= i < init.len() implies now < (#[trigger] init[i]).1 || now
                - init[i].1 < 60_000 by {
                assert(init[i] == window[i]);
            }
            assert(window[window.len() - 1] == last);
            assert(out =~= window);
        }
    }
}

/// The window holds exactly the calls of the last minute: one that is a minute old
/// or older is out, and every other is in.
pub proof fn law_window_is_the_last_minute(window: Seq<(u64, u64)>, now: u64)
    ensures
        forall|e: (u64, u64)| #[trigger]
            pruned(window, now).contains(e) <==> window.contains(e) && (now < e.1 || now - e.1
                < 60_000),
        (forall|i: int| 0 <= i < window.len() ==> now < (#[trigger] window[i]).1 || now - window[i].1
            < 60_000) ==> pruned(window, now) == window,
{
    lemma_pruned(window, now);
}

/// A reservation is one more call in its own window, made now, under a number of
/// its own; no other window changes. A window is full only where there is a limit
/// and that many calls are in it.
pub proof fn law_reservation_is_counted(
    rpm: RpmView,
    key: Seq<char>,
    other: Seq<char>,
    limit: u32,
    now: u64,
)
    requires
        other != key,
    ensures
        ({
            let after = rpm.reserved(key, now);
            &&& after.window(key).len() == pruned(rpm.window(key), now).len() + 1
            &&& after.window(key).last() == (rpm.sequence, now)
            &&& after.window(key).drop_last() == pruned(rpm.window(key), now)
            &&& after.window(other) == rpm.window(other)
            &&& after.sequence != rpm.sequence
            &&& !rpm.full(key, None, now)
            &&& rpm.full(key, Some(limit), now) <==> pruned(rpm.window(key), now).len() >= limit
            &&& after.full(key, Some(limit), now) <==> pruned(rpm.window(key), now).len() + 1
                >= limit
        }),
{
    let window = pruned(rpm.window(key), now);
    let after = rpm.reserved(key, now);
    assert(after.window(key) == window.push((rpm.sequence, now)));
    assert(after.window(key).drop_last() =~= window);
    lemma_pruned(rpm.window(key), now);
    assert forall|i: int| 0 <= i < after.window(key).len() implies now < (
    #[trigger] after.window(key)[i]).1 || now - after.window(key)[i].1 < 60_000 by {
        if i < window.len() {
            assert(after.window(key)[i] == window[i]);
            assert(window.contains(window[i]));
        }
    }
    lemma_pruned(after.window(key), now);
}

/// The wait is just long enough: none where the window has room, and else until
/// the oldest call in it is a minute old, and not shorter.
pub proof fn law_wait_is_just_enough(
    rpm: RpmView,
    key: Seq<char>,
    limit: Option<u32>,
    now: u64,
    sooner: int,
)
    requires
        limit is Some ==> limit->0 > 0,
    ensures
        ({
            let window = pruned(rpm.window(key), now);
            let wait = rpm.wait(key, limit, now);
            &&& !rpm.full(key, limit, now) ==> wait == 0
            &&& rpm.full(key, limit, now) ==> {
                &&& 0 < wait <= 60_000
                &&& window.len() > 0
                &&& window[0].1 <= now ==> {
                    &&& now + wait - window[0].1 == 60_000
                    &&& 0 <= sooner < wait ==> now + sooner - window[0].1 < 60_000
                }
            }
        }),
{
    let window = pruned(rpm.window(key), now);
    lemma_pruned(rpm.window(key), now);
    if rpm.full(key, limit, now) {
        assert(window.contains(window[0]));
    }
}

/// The limit of a provider is the configured one; none or zero means no limit.
pub proof fn law_limit_is_the_configured_one(provider: Seq<char>, config: Config)
    ensures
        match limit_for(provider, config) {
            Some(n) => n > 0 && config.limit(provider).rpm == Some(n),
            None => config.limit(provider).rpm is None || config.limit(provider).rpm == Some(0u32),
        },
{
}

/// An account of a configured provider is limited by a configured provider whose
/// name stands whole in front of it, the longest there is; the provider's own
/// account by the provider. Where none is configured, it is what stands before the
/// first colon.
pub proof fn law_account_belongs_to_its_provider(
    owner: Seq<char>,
    provider: Seq<char>,
    account: Seq<char>,
    limits: Map<Seq<char>, ProviderLimit>,
)
    requires
        limits.contains_key(provider),
    ensures
        is_provider_of(owner, provider, limits) ==> owner == provider,
        is_provider_of(owner, provider + ":"@ + account, limits) ==> {
            &&& limits.contains_key(owner)
            &&& owner.len() >= provider.len()
            &&& owner == provider + ":"@ + account || starts(provider + ":"@ + account, owner + ":"@)
        },
{
    let key = provider + ":"@ + account;
    assert(key.subrange(0, (provider + ":"@).len() as int) =~= provider + ":"@);
    assert(owns(provider, key));
    assert(owns(provider, provider));
    if is_provider_of(owner, provider, limits) {
        assert(provider.len() <= owner.len());
        if owner != provider {
            assert((owner + ":"@).len() <= provider.len());
            reveal_strlit(":");
        }
    }
}

/// Where no configured provider stands in front of an account, what stands before
/// its first colon is its provider.
pub proof fn law_unconfigured_account_is_read(
    owner: Seq<char>,
    provider: Seq<char>,
    account: Seq<char>,
    limits: Map<Seq<char>, ProviderLimit>,
)
    requires
        is_provider_of(owner, provider + ":"@ + account, limits),
        forall|p: Seq<char>| #[trigger]
            limits.contains_key(p) ==> p != provider + ":"@ + account && !starts(
                provider + ":"@ + account,
                p + ":"@,
            ),
        !provider.contains(':'),
    ensures
        owner == provider,
    decreases account.len(),
{
    lemma_first_part(provider, account);
}

proof fn lemma_first_part(provider: Seq<char>, account: Seq<char>)
    requires
        !provider.contains(':'),
    ensures
        parts_of(provider + ":"@ + account, ':').len() > 1,
        parts_of(provider + ":"@ + account, ':')[0] == provider,
    decreases account.len(),
{
    reveal_strlit(":");
    let key = provider + ":"@ + account;
    if account.len() == 0 {
        assert(key.drop_last() =~= provider);
        assert(key.last() == ':');
        lemma_only_part(provider);
    } else {
        assert(key.drop_last() =~= provider + ":"@ + account.drop_last());
        assert(key.last() == account.last());
        lemma_first_part(provider, account.drop_last());
    }
}

proof fn lemma_only_part(text: Seq<char>)
    requires
        !text.contains(':'),
    ensures
        parts_of(text, ':') == seq![text],
    decreases text.len(),
{
    if text.len() == 0 {
        assert(text =~= Seq::<char>::empty());
    } else {
        let init = text.drop_last();
        assert(text[text.len() - 1] == text.last());
        assert(!init.contains(':')) by {
            assert forall|i: int| 0 <= i < init.len() implies init[i] != ':' by {
                assert(text[i] == init[i]);
            }
        }
        lemma_only_part(init);
        assert(init.push(text.last()) =~= text);
        assert(parts_of(text, ':') =~= seq![text]);
    }
}

} // verus!
