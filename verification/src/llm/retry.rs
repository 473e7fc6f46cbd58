//! When a failed call may be repeated, and with which account.

use crate::auth::{
    account_name, accounts_of, law_accounts_are_listed, name_of_account, sorted_accounts, AuthStore, CredentialView,
};
use crate::text::{
    ascii_lower, contains, lemma_precedes_total, occurs, occurs_at, opt_view, precedes, starts, str_eq,
    to_ascii_lowercase, views,
};
use vstd::prelude::*;

verus! {

pub const MAX_ATTEMPTS: usize = 3;

/// An error that says the provider limited the rate.
pub open spec fn is_rate_limit(error: Seq<char>) -> bool {
    let low = error.map_values(|c: char| ascii_lower(c));
    occurs(low, "429"@) || occurs(low, "rate limit"@) || occurs(low, "rate_limit"@)
}

/// Only an explicit rate limit is worth a retry: after any other failure the
/// provider may already have charged for the call.
pub fn retryable(err: &str) -> (r: bool)
    ensures
        r == is_rate_limit(err@),
{
    let low = to_ascii_lowercase(err);
    contains(low.as_str(), "429") || contains(low.as_str(), "rate limit") || contains(
        low.as_str(),
        "rate_limit",
    )
}

/// An error that is known to have cost nothing: a rate limit, or a refused
/// credential, which `auth_failure` tells.
pub fn known_zero_rejection(err: &str, auth_failure: bool) -> (r: bool)
    ensures
        r == (is_rate_limit(err@) || auth_failure),
{
    retryable(err) || auth_failure
}

#[verifier::external_type_specification]
#[verifier::external_body]
pub struct ExSystemTime(std::time::SystemTime);

/// `SystemTime::now`: the time of the clock, whatever it is.
pub assume_specification[ std::time::SystemTime::now ]() -> (r: std::time::SystemTime)
;

/// `Duration::subsec_millis`: the milliseconds since the last full second, of
/// which there are less than a thousand.
pub assume_specification[ std::time::Duration::subsec_millis ](d: &std::time::Duration) -> (r: u32)
    ensures
        r < 1000,
;

/// `SystemTime::duration_since` the beginning of 1970, if the clock is past it.
#[verifier::external_body]
fn since_epoch(now: std::time::SystemTime) -> (r: Option<std::time::Duration>) {
    now.duration_since(std::time::UNIX_EPOCH).ok()
}

/// The milliseconds of the clock since the last full second.
fn clock_millis() -> (r: u32)
    ensures
        r < 1000,
{
    match since_epoch(std::time::SystemTime::now()) {
        Some(d) => d.subsec_millis(),
        None => 0,
    }
}

/// The least pause before a repetition, in milliseconds: it doubles up to the
/// fourth.
pub open spec fn base_pause(attempt: usize) -> u64 {
    if attempt == 0 {
        800
    } else if attempt == 1 {
        1600
    } else if attempt == 2 {
        3200
    } else {
        6400
    }
}

/// The pause with a jitter of less than half a second taken from the clock.
pub fn backoff_from(attempt: usize, millis: u32) -> (r: u64)
    ensures
        r == base_pause(attempt) + millis % 500,
{
    let base: u64 = if attempt == 0 {
        800
    } else if attempt == 1 {
        1600
    } else if attempt == 2 {
        3200
    } else {
        6400
    };
    base + (millis % 500) as u64
}

pub fn backoff_ms(attempt: usize) -> (r: u64)
    ensures
        base_pause(attempt) <= r < base_pause(attempt) + 500,
{
    let millis: u32 = clock_millis();
    backoff_from(attempt, millis)
}

/// The pauses never shrink from one repetition to the next, whatever the
/// jitter, as long as they grow at all.
pub proof fn law_backoff_grows(attempt: usize, a: u32, b: u32)
    requires
        attempt < 3,
    ensures
        base_pause(attempt) + a % 500 < base_pause((attempt + 1) as usize) + b % 500,
{
}

/// The first of the provider's accounts that is not the current one.
pub open spec fn other_account(keys: Seq<Seq<char>>, provider: Seq<char>, current: Seq<char>) -> Option<Seq<char>>
    decreases keys.len(),
{
    if keys.len() == 0 {
        None
    } else if account_name(keys[0], provider) != current {
        Some(account_name(keys[0], provider))
    } else {
        other_account(keys.subrange(1, keys.len() as int), provider, current)
    }
}

/// The account that is in use: the default one unless another is named.
pub open spec fn effective(current: Option<Seq<char>>) -> Seq<char> {
    match current {
        Some(name) => name,
        None => "default"@,
    }
}

pub open spec fn opt_str(s: Option<&str>) -> Option<Seq<char>> {
    match s {
        Some(s) => Some(s@),
        None => None,
    }
}

/// The account to try next: the first in the order of the keys that is not the
/// current one.
pub fn next_account(store: &AuthStore, provider: &str, current: Option<&str>) -> (r: Option<String>)
    ensures
        opt_view(r) == other_account(
            sorted_accounts(store@, provider@),
            provider@,
            effective(opt_str(current)),
        ),
{
    let keys = accounts_of(store, provider);
    let now = match current {
        Some(name) => name,
        None => "default",
    };
    let ghost all = views(keys@);
    let mut i: usize = 0;
    assert(all.subrange(0, all.len() as int) =~= all);
    while i < keys.len()
        invariant
            i <= keys@.len(),
            all == views(keys@),
            all == sorted_accounts(store@, provider@),
            now@ == effective(opt_str(current)),
            other_account(all, provider@, now@) == other_account(
                all.subrange(i as int, all.len() as int),
                provider@,
                now@,
            ),
        decreases keys@.len() - i,
    {
        let name = name_of_account(keys[i].as_str(), provider);
        let ghost rest = all.subrange(i as int, all.len() as int);
        assert(rest[0] == keys@[i as int]@);
        if !str_eq(name.as_str(), now) {
            return Some(name);
        }
        assert(rest.subrange(1, rest.len() as int) =~= all.subrange(i + 1, all.len() as int));
        i = i + 1;
    }
    None
}

proof fn lemma_other_account(keys: Seq<Seq<char>>, provider: Seq<char>, current: Seq<char>) -> (at: int)
    ensures
        match other_account(keys, provider, current) {
            Some(name) => 0 <= at < keys.len() && account_name(keys[at], provider) == name && name
                != current && forall|i: int|
                0 <= i < at ==> account_name(#[trigger] keys[i], provider) == current,
            None => forall|i: int|
                0 <= i < keys.len() ==> account_name(#[trigger] keys[i], provider) == current,
        },
    decreases keys.len(),
{
    if keys.len() == 0 {
        0
    } else if account_name(keys[0], provider) != current {
        0
    } else {
        let rest = keys.subrange(1, keys.len() as int);
        let at = lemma_other_account(rest, provider, current);
        assert forall|i: int| 1 <= i < keys.len() implies #[trigger] keys[i] == rest[i - 1] by {}
        at + 1
    }
}

/// The next account is another one than the current and is stored for the
/// provider: the first of those in the order of the keys. There is none only where
/// no other account is stored.
pub proof fn law_next_account_is_another(
    store: Map<Seq<char>, CredentialView>,
    provider: Seq<char>,
    current: Seq<char>,
)
    requires
        store.dom().finite(),
    ensures
        match other_account(sorted_accounts(store, provider), provider, current) {
            Some(name) => name != current && exists|key: Seq<char>| #[trigger]
                store.contains_key(key) && (key == provider || starts(key, provider + ":"@))
                    && account_name(key, provider) == name && forall|other: Seq<char>| #[trigger]
                    store.contains_key(other) && (other == provider || starts(
                        other,
                        provider + ":"@,
                    )) && account_name(other, provider) != current ==> !precedes(other, key),
            None => forall|key: Seq<char>| #[trigger]
                store.contains_key(key) && (key == provider || starts(key, provider + ":"@))
                    ==> account_name(key, provider) == current,
        },
{
    let keys = sorted_accounts(store, provider);
    let at = lemma_other_account(keys, provider, current);
    law_accounts_are_listed(store, provider);
    let found = other_account(keys, provider, current);
    assert forall|other: Seq<char>| #[trigger] store.contains_key(other) && (other == provider
        || starts(other, provider + ":"@)) && account_name(other, provider) != current implies found
        is Some && !precedes(other, keys[at]) by {
        assert(keys.contains(other));
        let o = choose|o: int| 0 <= o < keys.len() && keys[o] == other;
        lemma_precedes_total(other, keys[at]);
        if at < o {
            assert(precedes(keys[at], keys[o]));
        }
    }
    if found is Some {
        assert(keys.contains(keys[at]));
        assert(store.contains_key(keys[at]));
    }
}

/// An error that names its status, or a rate limit in either spelling, is one of
/// rate, whatever the case of its letters and whatever stands around it.
pub proof fn law_rate_limits_are_told(before: Seq<char>, behind: Seq<char>)
    ensures
        is_rate_limit(before + "429"@ + behind),
        is_rate_limit(before + "rate limit"@ + behind),
        is_rate_limit(before + "Rate Limit"@ + behind),
        is_rate_limit(before + "rate_limit"@ + behind),
{
    reveal_strlit("429");
    reveal_strlit("rate limit");
    reveal_strlit("Rate Limit");
    reveal_strlit("rate_limit");
    let n = before.len() as int;
    let a = (before + "429"@ + behind).map_values(|c: char| ascii_lower(c));
    assert(a.subrange(n, n + 3) =~= "429"@);
    assert(occurs_at(a, "429"@, n));
    let b = (before + "rate limit"@ + behind).map_values(|c: char| ascii_lower(c));
    assert(b.subrange(n, n + 10) =~= "rate limit"@);
    assert(occurs_at(b, "rate limit"@, n));
    let c = (before + "Rate Limit"@ + behind).map_values(|c: char| ascii_lower(c));
    assert(c.subrange(n, n + 10) =~= "rate limit"@);
    assert(occurs_at(c, "rate limit"@, n));
    let d = (before + "rate_limit"@ + behind).map_values(|c: char| ascii_lower(c));
    assert(d.subrange(n, n + 10) =~= "rate_limit"@);
    assert(occurs_at(d, "rate_limit"@, n));
}

/// The pause begins at eight tenths of a second and doubles with each attempt up
/// to the fourth; beyond that it stays.
pub proof fn law_backoff_doubles(attempt: usize)
    ensures
        base_pause(0) == 800,
        attempt < 3 ==> base_pause((attempt + 1) as usize) == 2 * base_pause(attempt),
        attempt >= 3 ==> base_pause(attempt) == base_pause(3),
{
}

/// No other error is taken for a rate limit: one that holds neither a four nor the
/// word `rate` speaks of none.
pub proof fn law_other_errors_are_no_rate_limits(error: Seq<char>)
    requires
        forall|i: int| 0 <= i < error.len() ==> #[trigger] error[i] != '4',
        forall|i: int|
            0 <= i + 3 < error.len() ==> !(#[trigger] ascii_lower(error[i]) == 'r' && ascii_lower(
                error[i + 1],
            ) == 'a' && ascii_lower(error[i + 2]) == 't' && ascii_lower(error[i + 3]) == 'e'),
    ensures
        !is_rate_limit(error),
{
    let low = error.map_values(|c: char| ascii_lower(c));
    reveal_strlit("429");
    reveal_strlit("rate limit");
    reveal_strlit("rate_limit");
    if occurs(low, "429"@) {
        let i = choose|i: int| occurs_at(low, "429"@, i);
        assert(low.subrange(i, i + 3)[0] == '4');
        assert(low[i] == ascii_lower(error[i]));
        assert(error[i] == '4');
    }
    if occurs(low, "rate limit"@) {
        let i = choose|i: int| occurs_at(low, "rate limit"@, i);
        lemma_rate(error, "rate limit"@, i);
    }
    if occurs(low, "rate_limit"@) {
        let i = choose|i: int| occurs_at(low, "rate_limit"@, i);
        lemma_rate(error, "rate_limit"@, i);
    }
}

proof fn lemma_rate(error: Seq<char>, word: Seq<char>, i: int)
    requires
        occurs_at(error.map_values(|c: char| ascii_lower(c)), word, i),
        word.len() >= 4,
        word[0] == 'r',
        word[1] == 'a',
        word[2] == 't',
        word[3] == 'e',
    ensures
        0 <= i && i + 3 < error.len(),
        ascii_lower(error[i]) == 'r' && ascii_lower(error[i + 1]) == 'a' && ascii_lower(error[i + 2])
            == 't' && ascii_lower(error[i + 3]) == 'e',
{
    let low = error.map_values(|c: char| ascii_lower(c));
    let part = low.subrange(i, i + word.len());
    assert(part[0] == 'r' && part[1] == 'a' && part[2] == 't' && part[3] == 'e');
    assert(part[0] == low[i] && part[1] == low[i + 1] && part[2] == low[i + 2] && part[3] == low[i + 3]);
}

} // verus!
