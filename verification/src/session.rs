//! What the library reads of a stored session.

use crate::text::{join, joined, views};
use vstd::prelude::*;

verus! {

#[derive(Debug)]
pub struct Session {
    pub id: String,
    pub updated_at: u64,
    pub message_revision: u64,
    pub directory: String,
}

/// One part of a message; only text and context carry words to keep.
#[derive(Debug)]
pub enum Part {
    Text { text: String },
    Context { text: String },
    Other,
}

#[derive(Debug)]
pub struct Message {
    pub parts: Vec<Part>,
}

/// The words of the text and context parts, in order.
pub open spec fn words(parts: Seq<Part>) -> Seq<Seq<char>>
    decreases parts.len(),
{
    if parts.len() == 0 {
        Seq::empty()
    } else {
        let head = words(parts.drop_last());
        match parts.last() {
            Part::Text { text } => head.push(text@),
            Part::Context { text } => head.push(text@),
            Part::Other => head,
        }
    }
}

/// One line per part.
pub open spec fn message_text(message: Message) -> Seq<char> {
    joined(words(message.parts@), "\n"@)
}

/// The texts of the messages that have any.
pub open spec fn spoken(messages: Seq<Message>) -> Seq<Seq<char>>
    decreases messages.len(),
{
    if messages.len() == 0 {
        Seq::empty()
    } else {
        let head = spoken(messages.drop_last());
        let text = message_text(messages.last());
        if text.len() == 0 {
            head
        } else {
            head.push(text)
        }
    }
}

/// The most recent `count` messages.
pub open spec fn recent(messages: Seq<Message>, count: nat) -> Seq<Message> {
    if messages.len() <= count {
        messages
    } else {
        messages.subrange(messages.len() - count, messages.len() as int)
    }
}

pub fn text_of(message: &Message) -> (r: String)
    ensures
        r@ == message_text(*message),
{
    let mut lines: Vec<String> = Vec::new();
    let mut i: usize = 0;
    assert(views(lines@) =~= words(message.parts@.take(0)));
    while i < message.parts.len()
        invariant
            i <= message.parts@.len(),
            views(lines@) == words(message.parts@.take(i as int)),
        decreases message.parts@.len() - i,
    {
        let ghost before = lines@;
        assert(message.parts@.take(i + 1).drop_last() =~= message.parts@.take(i as int));
        match &message.parts[i] {
            Part::Text { text } => {
                lines.push(text.clone());
                assert(views(lines@) =~= views(before).push(text@));
            },
            Part::Context { text } => {
                lines.push(text.clone());
                assert(views(lines@) =~= views(before).push(text@));
            },
            Part::Other => {},
        }
        i = i + 1;
    }
    assert(message.parts@.take(i as int) =~= message.parts@);
    join(lines.as_slice(), "\n")
}

/// The texts of the last `count` messages, without the empty ones.
pub fn recent_texts(messages: &[Message], count: usize) -> (r: Vec<String>)
    ensures
        views(r@) == spoken(recent(messages@, count as nat)),
{
    let from: usize = if messages.len() <= count {
        0
    } else {
        messages.len() - count
    };
    let ghost kept = recent(messages@, count as nat);
    let mut out: Vec<String> = Vec::new();
    let mut i: usize = from;
    assert(kept =~= messages@.subrange(from as int, messages@.len() as int));
    assert(views(out@) =~= spoken(kept.take(0)));
    while i < messages.len()
        invariant
            from <= i <= messages@.len(),
            kept == messages@.subrange(from as int, messages@.len() as int),
            views(out@) == spoken(kept.take(i - from)),
        decreases messages@.len() - i,
    {
        let ghost before = out@;
        assert(kept.take(i + 1 - from).drop_last() =~= kept.take(i - from));
        let text = text_of(&messages[i]);
        if !text.as_str().is_empty() {
            let ghost said = text@;
            out.push(text);
            assert(views(out@) =~= views(before).push(said));
        }
        i = i + 1;
    }
    assert(kept.take(i - from) =~= kept);
    out
}

/// The words of a message are its texts and contexts, in order; nothing else of it
/// is said.
pub proof fn law_words_are_texts_and_contexts(parts: Seq<Part>, part: Part)
    ensures
        part matches Part::Text { text } ==> words(parts.push(part)) == words(parts).push(text@),
        part matches Part::Context { text } ==> words(parts.push(part)) == words(parts).push(text@),
        part is Other ==> words(parts.push(part)) == words(parts),
        words(Seq::<Part>::empty()).len() == 0,
{
    assert(parts.push(part).drop_last() =~= parts);
}

proof fn lemma_spoken(messages: Seq<Message>)
    ensures
        spoken(messages) == messages.map_values(|m: Message| message_text(m)).filter(
            |text: Seq<char>| text.len() > 0,
        ),
    decreases messages.len(),
{
    reveal(Seq::filter);
    let texts = messages.map_values(|m: Message| message_text(m));
    if messages.len() > 0 {
        let init = messages.drop_last();
        lemma_spoken(init);
        assert(texts.drop_last() =~= init.map_values(|m: Message| message_text(m)));
        assert(texts.last() == message_text(messages.last()));
    }
    assert(spoken(messages) =~= texts.filter(|text: Seq<char>| text.len() > 0));
}

/// What was said last is the texts of the last messages, so many and no more, in
/// order, without those that say nothing.
pub proof fn law_the_last_messages_are_read(messages: Seq<Message>, count: nat)
    ensures
        recent(messages, count).len() == (if messages.len() < count {
            messages.len()
        } else {
            count
        }),
        messages.skip(messages.len() - recent(messages, count).len()) == recent(messages, count),
        spoken(recent(messages, count)) == recent(messages, count).map_values(
            |m: Message| message_text(m),
        ).filter(|text: Seq<char>| text.len() > 0),
{
    let last = recent(messages, count);
    assert(messages.skip(messages.len() - last.len()) =~= last);
    lemma_spoken(last);
}

} // verus!
