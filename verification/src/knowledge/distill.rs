//! Distilling a transcript into a handful of notes.

use crate::knowledge::{is_note_type, known_note_type};
use crate::llm::managed::{ManagedError, ManagedOutput, TokenUsage};
use crate::text::{
    cat2, cat3, cat4, chars_of, debug_quoted, decimal, decimal_of, ends, find_chars, first_at, join,
    joined, last_chars, last_index, occurs_at, opt_view, quoted, rfind, str_eq, string_of,
    tail_chars, trim, trimmed, views,
};
use vstd::prelude::*;
use vstd::string::*;

verus! {

/// One note as the model proposed it.
#[derive(Debug, PartialEq, Eq)]
pub struct NewNote {
    pub scope: String,
    pub note_type: String,
    pub description: String,
    pub content: String,
}

pub struct NoteView {
    pub scope: Seq<char>,
    pub note_type: Seq<char>,
    pub description: Seq<char>,
    pub content: Seq<char>,
}

impl View for NewNote {
    type V = NoteView;

    open spec fn view(&self) -> NoteView {
        NoteView {
            scope: self.scope@,
            note_type: self.note_type@,
            description: self.description@,
            content: self.content@,
        }
    }
}

/// The longest time that one distillation may take, in milliseconds.
pub const DISTILL_TIMEOUT: u64 = 8_000;

/// Only the end of a long transcript is distilled.
pub const TRANSCRIPT_CAP: usize = 12_000;

pub const MAX_NOTES: usize = 5;

pub const MAX_DESCRIPTION: usize = 60;

pub const MAX_CONTENT: usize = 500;

pub const INSTRUCTIONS: &'static str = "You are distilling a finished coding-agent session before it is deleted. Extract 0 to 5 durable learnings worth persisting as plain markdown notes: user corrections, project conventions, non-obvious pitfalls, lasting preferences. Skip one-off task details, ephemeral state, and anything already obvious from the code itself. Reply with ONLY a JSON array (no prose, no code fence): [{\"scope\": \"personal\", \"type\": \"correction\"|\"convention\"|\"pitfall\"|\"preference\"|\"note\", \"description\": \"<=60 chars\", \"content\": \"<=500 chars\"}]. Automatic writes are personal-only. Project knowledge requires a separate user preview and approval. If nothing is worth keeping, reply [].\n\nSESSION TRANSCRIPT:\n";

/// What the model is asked.
pub fn build_prompt(transcript: &str) -> (r: String)
    ensures
        r@ == INSTRUCTIONS@ + transcript@,
{
    cat2(INSTRUCTIONS, transcript)
}

/// The part of the transcript that is distilled: its last characters.
pub open spec fn distilled_part(transcript: Seq<Seq<char>>) -> Seq<char> {
    last_chars(joined(transcript, "\n\n"@), TRANSCRIPT_CAP as int)
}

/// What the model is asked of a session; nothing of one without messages.
pub fn prompt_of(transcript: &Vec<String>) -> (r: Option<String>)
    ensures
        opt_view(r) == (if transcript@.len() == 0 {
            None
        } else {
            Some(INSTRUCTIONS@ + distilled_part(views(transcript@)))
        }),
{
    if transcript.len() == 0 {
        return None;
    }
    let whole = join(transcript.as_slice(), "\n\n");
    let tail = tail_chars(whole.as_str(), TRANSCRIPT_CAP);
    Some(build_prompt(tail.as_str()))
}

/// The array in an answer, with whatever stands around it left out: from the
/// first opening bracket to the last closing one.
pub open spec fn array_in(text: Seq<char>) -> Result<Seq<char>, Seq<char>> {
    match first_at(text, "["@, 0) {
        None => Err("distill output does not contain a JSON array"@),
        Some(start) => match last_index(text, ']') {
            None => Err("distill output has an unterminated JSON array"@),
            Some(end) => if end < start {
                Err("distill output has an invalid JSON array boundary"@)
            } else {
                Ok(text.subrange(start, end + 1))
            },
        },
    }
}

pub fn output_array(text: &str) -> (r: Result<String, String>)
    ensures
        match array_in(text@) {
            Ok(array) => r matches Ok(a) && a@ == array,
            Err(why) => r matches Err(e) && e@ == why,
        },
{
    let chars = chars_of(text);
    let len: usize = chars.len();
    let bracket = chars_of("[");
    let start: usize = match find_chars(chars.as_slice(), bracket.as_slice()) {
        Some(i) => i,
        None => return Err("distill output does not contain a JSON array".to_owned()),
    };
    let end: usize = match rfind(chars.as_slice(), ']') {
        Some(i) => i,
        None => return Err("distill output has an unterminated JSON array".to_owned()),
    };
    if end < start {
        return Err("distill output has an invalid JSON array boundary".to_owned());
    }
    assert(end < len);
    Ok(string_of(chars.as_slice(), start, end + 1))
}

pub open spec fn about_note(index: int, what: Seq<char>) -> Seq<char> {
    "distill note "@ + decimal(index as nat) + what
}

/// What is wrong with a note: it is personal, of a known type, and neither its
/// description nor its content is blank or too long.
pub open spec fn note_error(index: int, note: NoteView) -> Option<Seq<char>> {
    if note.scope != "personal"@ {
        Some(about_note(index, " has unsupported scope "@ + quoted(note.scope)))
    } else if !is_note_type(note.note_type) {
        Some(about_note(index, " has unsupported type "@ + quoted(note.note_type)))
    } else if trimmed(note.description).len() == 0 || note.description.len() > MAX_DESCRIPTION {
        Some(about_note(index, " description must contain 1..=60 characters"@))
    } else if trimmed(note.content).len() == 0 || note.content.len() > MAX_CONTENT {
        Some(about_note(index, " content must contain 1..=500 characters"@))
    } else {
        None
    }
}

/// What is wrong with the first of the notes that has something wrong with it.
pub open spec fn first_error(notes: Seq<NewNote>) -> Option<Seq<char>>
    decreases notes.len(),
{
    if notes.len() == 0 {
        None
    } else {
        match first_error(notes.drop_last()) {
            Some(e) => Some(e),
            None => note_error(notes.len() - 1, notes.last()@),
        }
    }
}

/// What is wrong with an answer. `decoded` are the notes in its array, or what
/// the decoder said.
pub open spec fn output_error(text: Seq<char>, decoded: Result<Vec<NewNote>, String>) -> Option<Seq<char>> {
    match array_in(text) {
        Err(why) => Some(why),
        Ok(_) => match decoded {
            Err(error) => Some("distill output JSON is invalid: "@ + error@),
            Ok(notes) => if notes@.len() > MAX_NOTES {
                Some("distill output contains "@ + decimal(notes@.len()) + " notes; maximum is 5"@)
            } else {
                first_error(notes@)
            },
        },
    }
}

fn check_note(index: usize, note: &NewNote) -> (r: Result<(), String>)
    ensures
        match note_error(index as int, note@) {
            None => r is Ok,
            Some(why) => r matches Err(e) && e@ == why,
        },
{
    let place = decimal_of(index as u64);
    if !str_eq(note.scope.as_str(), "personal") {
        let shown = debug_quoted(note.scope.as_str());
        let what = cat2(" has unsupported scope ", shown.as_str());
        return Err(cat3("distill note ", place.as_str(), what.as_str()));
    }
    if !known_note_type(note.note_type.as_str()) {
        let shown = debug_quoted(note.note_type.as_str());
        let what = cat2(" has unsupported type ", shown.as_str());
        return Err(cat3("distill note ", place.as_str(), what.as_str()));
    }
    let description = trim(note.description.as_str());
    let description_len: usize = chars_of(note.description.as_str()).len();
    if description.as_str().is_empty() || description_len > MAX_DESCRIPTION {
        return Err(
            cat3(
                "distill note ",
                place.as_str(),
                " description must contain 1..=60 characters",
            ),
        );
    }
    let content = trim(note.content.as_str());
    let content_len: usize = chars_of(note.content.as_str()).len();
    if content.as_str().is_empty() || content_len > MAX_CONTENT {
        return Err(
            cat3("distill note ", place.as_str(), " content must contain 1..=500 characters"),
        );
    }
    Ok(())
}

proof fn lemma_error_stays(notes: Seq<NewNote>, n: int)
    requires
        0 <= n <= notes.len(),
        first_error(notes.take(n)) is Some,
    ensures
        first_error(notes) == first_error(notes.take(n)),
    decreases notes.len() - n,
{
    if n < notes.len() {
        assert(notes.take(n + 1).drop_last() =~= notes.take(n));
        lemma_error_stays(notes, n + 1);
    } else {
        assert(notes.take(n) =~= notes);
    }
}

/// The notes of an answer. One that breaks the rules is an error and not an
/// empty answer: the session can then be distilled again.
pub fn parse_output(text: &str, decoded: Result<Vec<NewNote>, String>) -> (r: Result<
    Vec<NewNote>,
    String,
>)
    ensures
        match output_error(text@, decoded) {
            None => r == decoded && r is Ok,
            Some(why) => r matches Err(e) && e@ == why,
        },
{
    match output_array(text) {
        Ok(_) => {},
        Err(e) => return Err(e),
    }
    let notes = match decoded {
        Ok(notes) => notes,
        Err(error) => return Err(cat2("distill output JSON is invalid: ", error.as_str())),
    };
    if notes.len() > MAX_NOTES {
        let count = decimal_of(notes.len() as u64);
        return Err(cat3("distill output contains ", count.as_str(), " notes; maximum is 5"));
    }
    let mut i: usize = 0;
    assert(notes@.take(0) =~= Seq::<NewNote>::empty());
    while i < notes.len()
        invariant
            i <= notes@.len(),
            notes@.len() <= MAX_NOTES,
            first_error(notes@.take(i as int)) is None,
            decoded == Ok::<Vec<NewNote>, String>(notes),
            array_in(text@) is Ok,
        decreases notes@.len() - i,
    {
        assert(notes@.take(i + 1).drop_last() =~= notes@.take(i as int));
        match check_note(i, &notes[i]) {
            Ok(()) => {},
            Err(e) => {
                proof {
                    lemma_error_stays(notes@, i + 1);
                }
                return Err(e);
            },
        }
        i = i + 1;
    }
    assert(notes@.take(i as int) =~= notes@);
    Ok(notes)
}

/// Every note that is accepted is personal, of a known type, and short.
pub proof fn law_accepted_notes_are_personal(text: Seq<char>, notes: Vec<NewNote>, i: int)
    requires
        output_error(text, Ok(notes)) is None,
        0 <= i < notes@.len(),
    ensures
        notes@.len() <= MAX_NOTES,
        notes@[i].scope@ == "personal"@,
        is_note_type(notes@[i].note_type@),
        0 < notes@[i].description@.len() <= MAX_DESCRIPTION,
        0 < notes@[i].content@.len() <= MAX_CONTENT,
{
    lemma_no_error(notes@, i);
    let note = notes@[i]@;
    if note.description.len() == 0 {
        assert(trimmed(note.description).len() == 0);
    }
    if note.content.len() == 0 {
        assert(trimmed(note.content).len() == 0);
    }
}

proof fn lemma_no_error(notes: Seq<NewNote>, i: int)
    requires
        first_error(notes) is None,
        0 <= i < notes.len(),
    ensures
        note_error(i, notes[i]@) is None,
    decreases notes.len(),
{
    if i < notes.len() - 1 {
        lemma_no_error(notes.drop_last(), i);
    }
}

/// What came of one distillation.
#[derive(Debug)]
pub struct DistillAttempt {
    pub result: Result<usize, String>,
    pub usage: Option<TokenUsage>,
    pub unmetered_call: bool,
    pub metering_warning: Option<String>,
}

impl DistillAttempt {
    /// There was nothing to distill: nobody was asked.
    pub fn nothing() -> (r: DistillAttempt)
        ensures
            r.result == Ok::<usize, String>(0),
            r.usage is None,
            !r.unmetered_call,
            r.metering_warning is None,
    {
        DistillAttempt { result: Ok(0), usage: None, unmetered_call: false, metering_warning: None }
    }

    /// The call failed. It went unmetered where it had begun and no usage came
    /// back.
    pub fn failed(error: ManagedError) -> (r: DistillAttempt)
        ensures
            r.result == Err::<usize, String>(error.message),
            r.usage == error.usage,
            r.unmetered_call == (error.request_started && !error.usage_reported),
            r.metering_warning == error.metering_warning,
    {
        DistillAttempt {
            result: Err(error.message),
            usage: error.usage,
            unmetered_call: error.request_started && !error.usage_reported,
            metering_warning: error.metering_warning,
        }
    }

    /// The call was answered: so many notes were written, or something failed on
    /// the way.
    pub fn answered(output: ManagedOutput, result: Result<usize, String>) -> (r: DistillAttempt)
        ensures
            r.result == result,
            r.usage == output.usage,
            r.unmetered_call == (output.usage is None),
            r.metering_warning == output.metering_warning,
    {
        DistillAttempt {
            result,
            usage: output.usage,
            unmetered_call: output.usage.is_none(),
            metering_warning: output.metering_warning,
        }
    }
}

/// A note could not be written: none behind it is, and the session stays.
pub fn persist_failed(note: &NewNote, error: &str) -> (r: String)
    ensures
        r@ == "persist distilled note '"@ + note.description@ + "': "@ + error@,
{
    cat4("persist distilled note '", note.description.as_str(), "': ", error)
}

/// What is distilled is the end of the transcript, as much of it as there is room
/// for, and all of it where it fits.
pub proof fn law_end_of_the_transcript_is_distilled(transcript: Seq<Seq<char>>)
    ensures
        ({
            let all = joined(transcript, "\n\n"@);
            let part = distilled_part(transcript);
            &&& ends(all, part)
            &&& all.len() <= 12_000 ==> part == all
            &&& all.len() > 12_000 ==> part.len() == 12_000
        }),
{
    let all = joined(transcript, "\n\n"@);
    let part = distilled_part(transcript);
    assert(all.subrange(all.len() - part.len(), all.len() as int) =~= part);
}

proof fn lemma_first_bracket(text: Seq<char>, from: int)
    requires
        0 <= from,
    ensures
        match first_at(text, "["@, from) {
            Some(i) => from <= i < text.len() && text[i] == '[' && forall|j: int|
                from <= j < i ==> #[trigger] text[j] != '[',
            None => forall|j: int| from <= j < text.len() ==> #[trigger] text[j] != '[',
        },
    decreases text.len() - from + 1,
{
    reveal_strlit("[");
    assert("["@.len() == 1 && "["@[0] == '[');
    if from + 1 <= text.len() {
        assert(text.subrange(from, from + 1)[0] == text[from]);
        if !occurs_at(text, "["@, from) {
            assert(text[from] != '[') by {
                if text[from] == '[' {
                    assert(text.subrange(from, from + 1) =~= "["@);
                }
            }
            lemma_first_bracket(text, from + 1);
        }
    }
}

proof fn lemma_last_bracket(text: Seq<char>)
    ensures
        match last_index(text, ']') {
            Some(i) => 0 <= i < text.len() && text[i] == ']' && forall|j: int|
                i < j < text.len() ==> #[trigger] text[j] != ']',
            None => forall|j: int| 0 <= j < text.len() ==> #[trigger] text[j] != ']',
        },
    decreases text.len(),
{
    if text.len() > 0 {
        let init = text.drop_last();
        lemma_last_bracket(init);
        assert forall|j: int| 0 <= j < init.len() implies #[trigger] text[j] == init[j] by {}
    }
}

/// The array in an answer goes from its first opening bracket to its last closing
/// one; an answer in which these are not there in this order has none.
pub proof fn law_array_is_between_the_brackets(text: Seq<char>, from: int, to: int)
    requires
        0 <= from < text.len(),
        0 <= to < text.len(),
        text[from] == '[',
        text[to] == ']',
        forall|j: int| 0 <= j < from ==> #[trigger] text[j] != '[',
        forall|j: int| to < j < text.len() ==> #[trigger] text[j] != ']',
    ensures
        from <= to ==> array_in(text) == Ok::<Seq<char>, Seq<char>>(text.subrange(from, to + 1)),
        from > to ==> array_in(text) is Err,
{
    lemma_first_bracket(text, 0);
    lemma_last_bracket(text);
    let i = first_at(text, "["@, 0);
    let k = last_index(text, ']');
    assert(text[from] == '[' && text[to] == ']');
    assert(i is Some && k is Some);
    if i->0 < from {
        assert(text[i->0] != '[');
    }
    if k->0 > to {
        assert(text[k->0] != ']');
    }
}

/// Without an opening or a closing bracket an answer holds no array.
pub proof fn law_no_array_without_brackets(text: Seq<char>)
    requires
        (forall|j: int| 0 <= j < text.len() ==> #[trigger] text[j] != '[') || (forall|j: int|
            0 <= j < text.len() ==> #[trigger] text[j] != ']'),
    ensures
        array_in(text) is Err,
{
    lemma_first_bracket(text, 0);
    lemma_last_bracket(text);
}

proof fn lemma_first_error(notes: Seq<NewNote>)
    ensures
        first_error(notes) is None <==> forall|i: int|
            0 <= i < notes.len() ==> note_error(i, (#[trigger] notes[i])@) is None,
    decreases notes.len(),
{
    if notes.len() > 0 {
        let init = notes.drop_last();
        lemma_first_error(init);
        assert forall|i: int| 0 <= i < init.len() implies #[trigger] notes[i] == init[i] by {}
        if first_error(init) is Some {
            let k = choose|k: int|
                0 <= k < init.len() && note_error(k, (#[trigger] init[k])@) is Some;
            assert(notes[k] == init[k]);
        }
        if first_error(notes) is None {
            assert forall|i: int| 0 <= i < notes.len() implies note_error(
                i,
                (#[trigger] notes[i])@,
            ) is None by {
                if i < init.len() {
                    assert(notes[i] == init[i]);
                }
            }
        } else if first_error(init) is None {
            assert(note_error(notes.len() - 1, notes[notes.len() - 1]@) is Some);
        }
    }
}

/// An answer is accepted exactly where it holds an array, its notes could be read,
/// there are at most five, and each is personal, of a known type, and with a
/// description and a content that are not blank and not too long.
pub proof fn law_good_notes_are_accepted(text: Seq<char>, notes: Vec<NewNote>)
    ensures
        output_error(text, Ok(notes)) is None <==> array_in(text) is Ok && notes@.len() <= 5
            && forall|i: int|
            0 <= i < notes@.len() ==> {
                let note = (#[trigger] notes@[i])@;
                &&& note.scope == "personal"@
                &&& is_note_type(note.note_type)
                &&& trimmed(note.description).len() > 0 && note.description.len() <= 60
                &&& trimmed(note.content).len() > 0 && note.content.len() <= 500
            },
{
    lemma_first_error(notes@);
    if forall|i: int| 0 <= i < notes@.len() ==> note_error(i, (#[trigger] notes@[i])@) is None {
        assert forall|i: int| 0 <= i < notes@.len() implies {
            let note = (#[trigger] notes@[i])@;
            &&& note.scope == "personal"@
            &&& is_note_type(note.note_type)
            &&& trimmed(note.description).len() > 0 && note.description.len() <= 60
            &&& trimmed(note.content).len() > 0 && note.content.len() <= 500
        } by {
            assert(note_error(i, notes@[i]@) is None);
        }
    } else {
        let k = choose|k: int| 0 <= k < notes@.len() && note_error(k, (#[trigger] notes@[k])@) is Some;
        assert(note_error(k, notes@[k]@) is Some);
    }
}

} // verus!
