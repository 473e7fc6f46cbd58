use kxen_core::knowledge::distill::{
    build_prompt, output_array, parse_output, persist_failed, prompt_of, DistillAttempt, NewNote, TRANSCRIPT_CAP,
};
use kxen_core::llm::managed::{managed_error, ManagedErrorKind, ManagedOutput, TokenUsage};

/// The notes in an answer's array: scope and type have defaults, the rest must be
/// there.
fn decode(text: &str) -> Result<Vec<NewNote>, String> {
    let array = output_array(text)?;
    let value: serde_json::Value = serde_json::from_str(&array).map_err(|e| e.to_string())?;
    let field = |item: &serde_json::Value, key: &str, default: Option<&str>| -> Result<String, String> {
        match (item.get(key).and_then(|v| v.as_str()), default) {
            (Some(s), _) => Ok(s.to_string()),
            (None, Some(d)) if item.get(key).is_none() => Ok(d.to_string()),
            _ => Err(format!("missing field `{key}`")),
        }
    };
    value
        .as_array()
        .ok_or("not an array".to_string())?
        .iter()
        .map(|item| {
            Ok(NewNote {
                scope: field(item, "scope", Some("personal"))?,
                note_type: field(item, "type", Some("note"))?,
                description: field(item, "description", None)?,
                content: field(item, "content", None)?,
            })
        })
        .collect()
}

fn parse(text: &str) -> Result<Vec<NewNote>, String> {
    parse_output(text, decode(text))
}

fn note(scope: &str, note_type: &str, description: &str, content: &str) -> NewNote {
    NewNote {
        scope: scope.into(),
        note_type: note_type.into(),
        description: description.into(),
        content: content.into(),
    }
}

#[test]
fn parse_output_tolerates_prose_and_fence() {
    let text = "Here you go:\n```json\n[{\"scope\":\"personal\",\"type\":\"pitfall\",\"description\":\"vite 端口 7823\",\"content\":\"devUrl 必须与 vite.config 一致\"}]\n```";
    let notes = parse(text).unwrap();
    assert_eq!(notes.len(), 1);
    assert_eq!(notes[0].scope, "personal");
    assert_eq!(notes[0].note_type, "pitfall");
}

#[test]
fn parse_output_empty_and_broken() {
    assert!(parse("[]").unwrap().is_empty());
    assert!(parse("not json at all").is_err());
    assert!(parse("[{\"description\":\"\",\"content\":\"\"}]").is_err());
    assert!(parse("[{\"scope\":\"project\",\"description\":\"x\",\"content\":\"y\"}]").is_err());
}

#[test]
fn prompt_asks_for_json_only() {
    let p = build_prompt("user: x\nassistant: y");
    assert!(p.contains("JSON array"));
    assert!(p.contains("SESSION TRANSCRIPT:"));
    assert!(p.ends_with("SESSION TRANSCRIPT:\nuser: x\nassistant: y"));
    assert!(p.contains("[{\"scope\": \"personal\", \"type\": \"correction\"|"));
}

#[test]
fn the_array_is_cut_out_of_the_answer() {
    assert_eq!(output_array("a [1, [2]] b").unwrap(), "[1, [2]]");
    assert_eq!(output_array("none").unwrap_err(), "distill output does not contain a JSON array");
    assert_eq!(output_array("[ open").unwrap_err(), "distill output has an unterminated JSON array");
    assert_eq!(output_array("] [").unwrap_err(), "distill output has an invalid JSON array boundary");
}

#[test]
fn every_rule_on_notes_has_its_error() {
    let check = |n: NewNote| parse_output("[]", Ok(vec![n])).unwrap_err();
    assert_eq!(check(note("project", "note", "d", "c")), "distill note 0 has unsupported scope \"project\"");
    assert_eq!(check(note("personal", "rumour\n", "d", "c")), "distill note 0 has unsupported type \"rumour\\n\"");
    assert_eq!(check(note("personal", "note", "  ", "c")), "distill note 0 description must contain 1..=60 characters");
    assert_eq!(
        check(note("personal", "note", &"字".repeat(61), "c")),
        "distill note 0 description must contain 1..=60 characters"
    );
    assert_eq!(
        check(note("personal", "note", "d", &"x".repeat(501))),
        "distill note 0 content must contain 1..=500 characters"
    );
    assert!(parse_output("[]", Ok(vec![note("personal", "note", &"字".repeat(60), &"x".repeat(500))])).is_ok());
    let six = (0..6).map(|_| note("personal", "note", "d", "c")).collect();
    assert_eq!(parse_output("[]", Ok(six)).unwrap_err(), "distill output contains 6 notes; maximum is 5");
    assert_eq!(
        parse_output("[]", Err("expected value".into())).unwrap_err(),
        "distill output JSON is invalid: expected value"
    );
    let second = vec![note("personal", "note", "d", "c"), note("global", "note", "d", "c")];
    assert_eq!(parse_output("[]", Ok(second)).unwrap_err(), "distill note 1 has unsupported scope \"global\"");
}

#[test]
fn only_the_end_of_a_transcript_is_distilled() {
    assert_eq!(prompt_of(&vec![]), None);
    let short = prompt_of(&vec!["a".to_string(), "b".to_string()]).unwrap();
    assert!(short.ends_with("SESSION TRANSCRIPT:\na\n\nb"));
    let long = prompt_of(&vec!["前".repeat(TRANSCRIPT_CAP), "end".to_string()]).unwrap();
    let tail = long.rsplit_once("SESSION TRANSCRIPT:\n").unwrap().1;
    assert_eq!(tail.chars().count(), TRANSCRIPT_CAP);
    assert!(tail.ends_with("\n\nend"));
}

#[test]
fn attempts_say_what_was_metered() {
    let nothing = DistillAttempt::nothing();
    assert_eq!(nothing.result, Ok(0));
    assert!(!nothing.unmetered_call);
    let started = DistillAttempt::failed(managed_error(ManagedErrorKind::Provider, "boom".into(), true, None, None));
    assert_eq!(started.result, Err("boom".to_string()));
    assert!(started.unmetered_call);
    let usage = TokenUsage { input: 3, output: 4 };
    let metered =
        DistillAttempt::failed(managed_error(ManagedErrorKind::Timeout, "late".into(), true, Some(usage), None));
    assert!(!metered.unmetered_call);
    assert_eq!(metered.usage, Some(usage));
    let output = ManagedOutput { text: "[]".into(), usage: None, metering_warning: Some("w".into()) };
    let answered = DistillAttempt::answered(output, Ok(2));
    assert_eq!(answered.result, Ok(2));
    assert!(answered.unmetered_call);
    assert_eq!(answered.metering_warning, Some("w".to_string()));
    assert_eq!(
        persist_failed(&note("personal", "note", "vite", "c"), "disk full"),
        "persist distilled note 'vite': disk full"
    );
}
