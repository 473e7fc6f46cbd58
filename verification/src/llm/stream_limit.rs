//! A bound on what one streamed answer may amount to.

use crate::json::{json_text, rendered};
use crate::llm::types::{ChunkToolCall, Delta};
use crate::text::{cat3, decimal, decimal_of, size};
use vstd::prelude::*;

verus! {

pub const MAX_OUTPUT_BYTES: usize = 16_777_216;

pub const MAX_EVENTS: usize = 65_536;

/// Counts events and bytes against limits.
#[derive(Debug)]
pub struct StreamBudget {
    pub bytes: usize,
    pub events: usize,
    pub byte_limit: usize,
    pub event_limit: usize,
}

/// A sum that stops at the largest number.
pub open spec fn capped(n: int) -> usize {
    if n > usize::MAX {
        usize::MAX
    } else {
        n as usize
    }
}

pub open spec fn opt_size(text: Option<String>) -> int {
    match text {
        Some(t) => size(t@),
        None => 0,
    }
}

pub open spec fn fragment_size(c: ChunkToolCall) -> int {
    opt_size(c.id) + match c.function {
        Some(f) => opt_size(f.name) + opt_size(f.arguments),
        None => 0,
    }
}

pub open spec fn fragments_size(list: Seq<ChunkToolCall>) -> int
    decreases list.len(),
{
    if list.len() == 0 {
        0
    } else {
        fragments_size(list.drop_last()) + fragment_size(list.last())
    }
}

/// The bytes that an event adds to the output.
pub open spec fn delta_size(delta: Delta) -> int {
    match delta {
        Delta::Text(t) => size(t@),
        Delta::Reasoning(t) => size(t@),
        Delta::Error(t) => size(t@),
        Delta::ToolFragments(list) => fragments_size(list@),
        Delta::ToolCall { name, input } => size(name@) + size(rendered(input@)),
        Delta::Usage { .. } => 0,
        Delta::Done => 0,
    }
}

fn opt_len(text: &Option<String>) -> (r: usize)
    ensures
        r == opt_size(*text),
{
    match text {
        Some(t) => t.as_str().as_bytes().len(),
        None => 0,
    }
}

proof fn lemma_sizes(list: Seq<ChunkToolCall>)
    ensures
        fragments_size(list) >= 0,
    decreases list.len(),
{
    if list.len() > 0 {
        lemma_sizes(list.drop_last());
    }
}

fn delta_len(delta: &Delta) -> (r: usize)
    ensures
        r == capped(delta_size(*delta)),
{
    match delta {
        Delta::Text(t) => t.as_str().as_bytes().len(),
        Delta::Reasoning(t) => t.as_str().as_bytes().len(),
        Delta::Error(t) => t.as_str().as_bytes().len(),
        Delta::ToolFragments(list) => {
            let mut total: usize = 0;
            let mut i: usize = 0;
            while i < list.len()
                invariant
                    i <= list@.len(),
                    total == capped(fragments_size(list@.take(i as int))),
                decreases list@.len() - i,
            {
                let c = &list[i];
                assert(list@.take(i + 1).drop_last() =~= list@.take(i as int));
                proof {
                    lemma_sizes(list@.take(i as int));
                }
                let id: usize = opt_len(&c.id);
                total = total.saturating_add(id);
                if let Some(f) = &c.function {
                    let name: usize = opt_len(&f.name);
                    let arguments: usize = opt_len(&f.arguments);
                    total = total.saturating_add(name).saturating_add(arguments);
                }
                i = i + 1;
            }
            assert(list@.take(i as int) =~= list@);
            total
        },
        Delta::ToolCall { name, input } => {
            let text = json_text(input);
            name.as_str().as_bytes().len().saturating_add(text.as_str().as_bytes().len())
        },
        Delta::Usage { .. } => 0,
        Delta::Done => 0,
    }
}

impl Default for StreamBudget {
    fn default() -> (r: StreamBudget)
        ensures
            r.bytes == 0,
            r.events == 0,
            r.byte_limit == MAX_OUTPUT_BYTES,
            r.event_limit == MAX_EVENTS,
    {
        StreamBudget {
            bytes: 0,
            events: 0,
            byte_limit: MAX_OUTPUT_BYTES,
            event_limit: MAX_EVENTS,
        }
    }
}

impl StreamBudget {
    /// The budget with one more event counted. The bytes of an event that is one
    /// too many are not counted.
    pub open spec fn counted(self, delta: Delta) -> StreamBudget {
        let events = capped(self.events + 1);
        if events > self.event_limit {
            StreamBudget { events, ..self }
        } else {
            StreamBudget { events, bytes: capped(self.bytes + delta_size(delta)), ..self }
        }
    }

    /// Why the event is too much, if it is.
    pub open spec fn refusal(self, delta: Delta) -> Option<Seq<char>> {
        if capped(self.events + 1) > self.event_limit {
            Some("provider stream exceeded "@ + decimal(self.event_limit as nat) + " event limit"@)
        } else if capped(self.bytes + delta_size(delta)) > self.byte_limit {
            Some(
                "provider stream exceeded "@ + decimal(self.byte_limit as nat)
                    + " byte output limit"@,
            )
        } else {
            None
        }
    }

    /// Counts one event; an error where it passes a limit.
    pub fn observe(&mut self, delta: &Delta) -> (r: Result<(), String>)
        ensures
            *final(self) == old(self).counted(*delta),
            match old(self).refusal(*delta) {
                None => r is Ok,
                Some(text) => r matches Err(e) && e@ == text,
            },
    {
        self.events = self.events.saturating_add(1);
        if self.events > self.event_limit {
            let limit = decimal_of(self.event_limit as u64);
            return Err(cat3("provider stream exceeded ", limit.as_str(), " event limit"));
        }
        let added: usize = delta_len(delta);
        proof {
            if let Delta::ToolFragments(list) = delta {
                lemma_sizes(list@);
            }
        }
        self.bytes = self.bytes.saturating_add(added);
        if self.bytes > self.byte_limit {
            let limit = decimal_of(self.byte_limit as u64);
            return Err(cat3("provider stream exceeded ", limit.as_str(), " byte output limit"));
        }
        Ok(())
    }
}

/// A stream that passed a limit never comes back under it.
pub proof fn law_budget_is_spent_for_good(budget: StreamBudget, delta: Delta, next: Delta)
    requires
        budget.refusal(delta) is Some,
    ensures
        budget.counted(delta).refusal(next) is Some,
{
    lemma_delta_size(next);
}

proof fn lemma_delta_size(delta: Delta)
    ensures
        delta_size(delta) >= 0,
{
    if let Delta::ToolFragments(list) = delta {
        lemma_sizes(list@);
    }
}

/// Each event is counted once, with its size, and is let through exactly while
/// both counts are within their limits; the limits stay.
pub proof fn law_events_are_counted(budget: StreamBudget, delta: Delta)
    requires
        budget.events < budget.event_limit,
        budget.bytes + delta_size(delta) <= usize::MAX,
        delta_size(delta) >= 0,
    ensures
        budget.counted(delta).events == budget.events + 1,
        budget.counted(delta).bytes == budget.bytes + delta_size(delta),
        budget.counted(delta).event_limit == budget.event_limit,
        budget.counted(delta).byte_limit == budget.byte_limit,
        budget.refusal(delta) is None <==> budget.bytes + delta_size(delta) <= budget.byte_limit,
{
}

/// Behind the last event that is allowed every other is refused, whatever its
/// size.
pub proof fn law_event_limit_is_kept(budget: StreamBudget, delta: Delta)
    requires
        budget.events >= budget.event_limit,
        budget.event_limit < usize::MAX,
    ensures
        budget.refusal(delta) is Some,
{
}

/// Text of every sort counts with its bytes, and so does what a call holds; counts
/// and the end weigh nothing.
pub proof fn law_sizes_are_bytes(text: String, input: u64, output: u64, list: Vec<ChunkToolCall>, call: ChunkToolCall)
    ensures
        delta_size(Delta::Text(text)) == size(text@),
        delta_size(Delta::Reasoning(text)) == size(text@),
        delta_size(Delta::Error(text)) == size(text@),
        delta_size(Delta::Usage { input, output }) == 0,
        delta_size(Delta::Done) == 0,
        delta_size(Delta::ToolFragments(list)) == fragments_size(list@),
        fragments_size(list@.push(call)) == fragments_size(list@) + (match call.id {
            Some(id) => size(id@),
            None => 0,
        }) + (match call.function {
            Some(f) => (match f.name {
                Some(name) => size(name@),
                None => 0,
            }) + (match f.arguments {
                Some(arguments) => size(arguments@),
                None => 0,
            }),
            None => 0,
        }),
{
    assert(list@.push(call).drop_last() =~= list@);
}

} // verus!
