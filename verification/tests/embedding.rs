use kxen_core::auth::{AuthStore, CredentialKind};
use kxen_core::json::Json;
use kxen_core::knowledge::embedding::warm::{
    batches, charged, judge, parse_usage, request_timeout, run_stats, EmbeddingRuntime, Fetch, GoalBudget, BATCH,
    REQUEST_TIMEOUT,
};
use kxen_core::knowledge::embedding::{
    build_ollama_request, build_openai_request, cache_path, content_hash, doc_text, parse_ollama_response,
    parse_openai_response, recall, resolve_endpoint, resolve_endpoint_with, EmbeddingConfig, Protocol,
};
use kxen_core::knowledge::embedding_cache::{EmbeddingCache, CACHE_MAX, EVICTED};
use kxen_core::knowledge::retrieval::{
    age_days, conflict_losers, parse_date_days, select_notes, term_hits, tokenize, Scored, TermHit, TokenSet,
};
use kxen_core::llm::managed::TokenUsage;

fn cfg(provider: &str, model: &str, base_url: &str) -> EmbeddingConfig {
    EmbeddingConfig { provider: provider.into(), model: model.into(), base_url: base_url.into() }
}

fn store() -> AuthStore {
    let mut store = AuthStore::new();
    store.insert("openai", CredentialKind::Api { key: "sk".into(), region: None });
    store.insert(
        "openrouter",
        CredentialKind::Oauth { access: "tok".into(), refresh: "r".into(), expires: 1, account_id: None },
    );
    store
}

#[test]
fn endpoints_follow_the_settings() {
    let openai = resolve_endpoint_with(&cfg("openai", "", ""), &store(), Some("work".into())).unwrap();
    assert_eq!(openai.url, "https://api.openai.com/v1/embeddings");
    assert_eq!(openai.key.as_deref(), Some("sk"));
    assert_eq!(openai.model, "text-embedding-3-small");
    assert_eq!(openai.account.as_deref(), Some("work"));
    assert!(!openai.allow_loopback);
    let router = resolve_endpoint_with(&cfg("openrouter", " m ", " https://own/v1// "), &store(), None).unwrap();
    assert_eq!(router.url, "https://own/v1/embeddings");
    assert_eq!(router.key.as_deref(), Some("tok"));
    assert_eq!(router.model, "m");
    let ollama = resolve_endpoint_with(&cfg("ollama", "", ""), &AuthStore::new(), Some("x".into())).unwrap();
    assert_eq!(ollama.url, "http://localhost:11434/api/embed");
    assert_eq!((ollama.key, ollama.account), (None, None));
    assert_eq!(ollama.protocol, Protocol::Ollama);
    assert!(ollama.allow_loopback);
    assert!(resolve_endpoint_with(&cfg("", "", ""), &store(), None).is_none());
    assert!(resolve_endpoint_with(&cfg("opanai", "", ""), &store(), None).is_none());
    assert!(resolve_endpoint_with(&cfg("openai", "", ""), &AuthStore::new(), None).is_none());
    assert!(resolve_endpoint(Err("toml".into()), Ok(store()), None).is_none());
    assert!(resolve_endpoint(Ok(cfg("openai", "", "")), Err("auth".into()), None).is_none());
    assert!(resolve_endpoint(Ok(cfg("openai", "", "")), Ok(store()), None).is_some());
}

#[test]
fn texts_are_cut_and_hashed() {
    assert_eq!(doc_text("d", &"字".repeat(1500)), format!("d\n{}", "字".repeat(1000)));
    assert_eq!(content_hash("abc"), "ba7816bf8f01cfea414140de5dae2223b00361a396177a9cb410ff61f20015ad");
    assert_eq!(cache_path("/data"), "/data/embedding-cache.json");
}

#[test]
fn requests_list_their_texts() {
    let texts = vec!["a".to_string(), "b".to_string()];
    for request in [build_openai_request("m", &texts), build_ollama_request("m", &texts)] {
        assert_eq!(request.text_at("model").unwrap(), "m");
        let input = request.get("input").and_then(Json::as_array).unwrap();
        assert!(matches!(&input[1], Json::Str(s) if s == "b"));
        assert_eq!(input.len(), 2);
    }
}

#[test]
fn vectors_come_whole_or_not_at_all() {
    let open = |body: &str| parse_openai_response(body);
    let rows = |list: &[&[&str]]| {
        Some(list.iter().map(|row| row.iter().map(|n| n.to_string()).collect()).collect::<Vec<Vec<String>>>())
    };
    assert_eq!(open(r#"{"data":[{"embedding":[1,0.5,-2]},{"embedding":[]}]}"#), rows(&[&["1", "0.5", "-2"], &[]]));
    assert_eq!(open(r#"{"data":[]}"#), rows(&[]));
    assert_eq!(open(r#"{"data":[{"embedding":[1,"2"]}]}"#), None);
    assert_eq!(open(r#"{"data":[{"embedding":[1]},{}]}"#), None);
    assert_eq!(open(r#"{"embeddings":[[1]]}"#), None);
    assert_eq!(open("{"), None);
    assert_eq!(parse_ollama_response(r#"{"embeddings":[[0.25],[7]]}"#), rows(&[&["0.25"], &["7"]]));
    assert_eq!(parse_ollama_response(r#"{"embeddings":[{"embedding":[1]}]}"#), None);
}

#[test]
fn parses_known_usage_without_inventing_output_tokens() {
    assert_eq!(
        parse_usage(r#"{"usage":{"prompt_tokens":3,"total_tokens":4}}"#, Protocol::OpenAi),
        Some(TokenUsage { input: 4, output: 0 })
    );
    assert_eq!(
        parse_usage(r#"{"prompt_eval_count":7}"#, Protocol::Ollama),
        Some(TokenUsage { input: 7, output: 0 })
    );
    assert_eq!(parse_usage(r#"{"usage":{}}"#, Protocol::OpenAi), None);
    assert_eq!(
        parse_usage(r#"{"usage":{"prompt_tokens":3}}"#, Protocol::OpenAi),
        Some(TokenUsage { input: 3, output: 0 })
    );
    assert_eq!(parse_usage("{", Protocol::OpenAi), None);
}

#[test]
fn goals_bound_the_time_of_a_request() {
    let free = EmbeddingRuntime { goal_id: None, session_id: None };
    assert_eq!(request_timeout(&free, Err("x".into())), Ok(REQUEST_TIMEOUT));
    let bound = EmbeddingRuntime { goal_id: Some("g".into()), session_id: None };
    assert_eq!(request_timeout(&bound, Ok(GoalBudget::Unbounded)), Ok(30_000));
    assert_eq!(request_timeout(&bound, Ok(GoalBudget::WallRemaining(12))), Ok(12));
    assert_eq!(request_timeout(&bound, Ok(GoalBudget::WallRemaining(90_000))), Ok(30_000));
    assert_eq!(
        request_timeout(&bound, Ok(GoalBudget::Stop("paused".into()))).unwrap_err(),
        "goal g cannot start embedding in status paused"
    );
    assert_eq!(
        request_timeout(&bound, Err("io".into())).unwrap_err(),
        "goal g cannot be loaded before embedding: io"
    );
}

#[test]
fn requests_are_judged_by_how_they_end() {
    let check = |fetch: Fetch| {
        let v = judge(fetch, 2);
        (v.result.err(), v.health, v.metered)
    };
    assert_eq!(check(Fetch::Answered(Some(2))), (None, Some(true), true));
    assert_eq!(
        check(Fetch::Answered(Some(3))),
        (Some("embedding count mismatch: 3 for 2 texts".into()), Some(false), true)
    );
    assert_eq!(check(Fetch::Answered(None)), (Some("embedding response parse failed".into()), Some(false), true));
    assert_eq!(check(Fetch::Failed("http 500".into())), (Some("http 500".into()), Some(false), true));
    assert_eq!(
        check(Fetch::TimedOut("0.5".into())),
        (Some("embedding request timed out after 0.5s".into()), Some(false), true)
    );
    assert_eq!(check(Fetch::CancelledAfter), (Some("embedding request cancelled".into()), None, true));
    assert_eq!(check(Fetch::CancelledBefore), (Some("embedding request cancelled".into()), None, false));
    assert_eq!(check(Fetch::NotAdmitted), (Some("embedding admission timed out".into()), None, false));
    assert_eq!(check(Fetch::Refused("full".into())), (Some("embedding admission failed: full".into()), None, false));
}

#[test]
fn reports_tell_unknown_from_nothing() {
    let known = run_stats(Some(TokenUsage { input: 9, output: 4 }), 2000);
    assert_eq!((known.input_tokens, known.unmetered_calls, known.usage_complete), (9, 0, true));
    assert_eq!(known.tokens_per_sec, 2);
    let unknown = run_stats(None, 0);
    assert_eq!((unknown.input_tokens, unknown.unmetered_calls, unknown.usage_complete), (0, 1, false));
    assert_eq!(unknown.tokens_per_sec, 0);
    assert_eq!(charged(Some(TokenUsage { input: u64::MAX, output: 1 })), Some(u64::MAX));
    assert_eq!(charged(None), None);
}

#[test]
fn texts_are_asked_for_in_batches() {
    let texts: Vec<String> = (0..BATCH + 3).map(|i| i.to_string()).collect();
    let parts = batches(texts.clone());
    assert_eq!(parts.iter().map(Vec::len).collect::<Vec<_>>(), vec![BATCH, 3]);
    assert_eq!(parts.concat(), texts);
    assert!(batches(vec![]).is_empty());
}

#[test]
fn missing_texts_are_asked_for_once() {
    let mut cache: EmbeddingCache<Vec<u8>> = EmbeddingCache::new();
    cache.insert(&content_hash("b"), vec![1], 5);
    let docs: Vec<String> = ["a", "b", "a", "q"].iter().map(|s| s.to_string()).collect();
    let found = recall(&cache, "q", &docs);
    assert!(!found.query);
    assert_eq!(found.docs, vec![false, true, false, false]);
    assert_eq!(found.missing, vec!["q", "a"]);
}

#[test]
fn the_cache_drops_what_was_not_used() {
    let mut cache: EmbeddingCache<u32> = EmbeddingCache::new();
    assert!(cache.is_empty());
    for i in 0..CACHE_MAX {
        cache.insert(&format!("k{i:05}"), i as u32, i as u64);
    }
    assert_eq!(cache.len(), CACHE_MAX);
    assert_eq!(cache.get("k00000", 1_000_000), Some(&0));
    cache.insert("k00001", 7, 3);
    assert_eq!(cache.len(), CACHE_MAX);
    cache.insert("new", 9, 2_000_000);
    assert_eq!(cache.len(), CACHE_MAX - EVICTED + 1);
    assert!(cache.contains("k00000"), "used a moment ago");
    assert!(!cache.contains("k00001") && !cache.contains("k00409"));
    assert!(cache.contains("k00410") && cache.contains("new"));
    assert_eq!(cache.last_used("new"), Some(2_000_000));
    assert_eq!(cache.get("gone", 1), None);
}

#[test]
fn words_and_bigrams_are_tokens() {
    assert_eq!(tokenize("Fix src/Main.rs"), vec!["fix", "src", "main", "rs"]);
    assert_eq!(tokenize("登录页"), vec!["登录", "录页"]);
    assert_eq!(tokenize("坑 a坑b"), vec!["坑", "a", "坑", "b"]);
}

#[test]
fn tokens_do_not_depend_on_case_or_on_neighbours() {
    assert_eq!(tokenize("Fix ABC9 登录"), tokenize("fix abc9 登录"));
    assert_eq!(tokenize("FIX ABC9 登录"), tokenize("fix abc9 登录"));
    let mut apart = tokenize("Use trash");
    apart.extend(tokenize("登录页"));
    assert_eq!(tokenize("Use trash 登录页"), apart);
    assert_eq!(tokenize("录 页"), vec!["录", "页"]);
    assert_eq!(tokenize(" -_. "), Vec::<String>::new());
    for token in tokenize("Ä-Fix_ME 坑坑坑 9X") {
        let small = token.chars().all(|c| c.is_ascii_lowercase() || c.is_ascii_digit());
        assert!(!token.is_empty() && (small || token.chars().count() <= 2), "{token}");
    }
}

#[test]
fn the_latest_notes_come_in_without_a_query() {
    let note = |score: u64, date: &str, index: usize| Scored { score, date: date.into(), slug: "s".into(), index };
    let notes = vec![
        note(9, "2026-01-01", 0),
        note(0, "2026-03-01", 1),
        note(0, "2025-12-31", 2),
        note(1, "2026-02-01", 3),
        note(2, "2026-03-01", 4),
    ];
    assert_eq!(select_notes(&notes, false), vec![1, 4, 3]);
    assert_eq!(select_notes(&vec![note(0, "2026-01-01", 7)], false), vec![7]);
    assert!(select_notes(&Vec::new(), false).is_empty());
}

#[test]
fn terms_are_counted_by_document() {
    let words = |s: &str| tokenize(s);
    let docs = vec![words("a b a"), words("b"), words("c")];
    let hits = term_hits(words("a b a z"), &docs);
    assert_eq!(hits[0], vec![TermHit { in_doc: 2, in_docs: 1 }, TermHit { in_doc: 1, in_docs: 2 }]);
    assert_eq!(hits[1], vec![TermHit { in_doc: 1, in_docs: 2 }]);
    assert!(hits[2].is_empty());
}

#[test]
fn older_versions_of_a_note_lose() {
    let sets = vec![
        TokenSet::of(tokenize("use trash not rm")),
        TokenSet::of(tokenize("use trash not rm always")),
        TokenSet::of(tokenize("unrelated")),
    ];
    let strings = |list: [&str; 3]| list.iter().map(|s| s.to_string()).collect::<Vec<_>>();
    let dates = strings(["2026-01-01", "2026-02-01", "2026-01-01"]);
    let contents = strings(["v1", "v2", "v3"]);
    assert_eq!(conflict_losers(&sets, &dates, &contents), vec![0]);
    let same = strings(["v", "v", "v3"]);
    assert!(conflict_losers(&sets, &dates, &same).is_empty());
}

#[test]
fn the_best_notes_are_selected() {
    let note = |score: u64, date: &str, slug: &str, index: usize| Scored {
        score,
        date: date.into(),
        slug: slug.into(),
        index,
    };
    let notes = vec![
        note(5, "2026-01-01", "a", 0),
        note(9, "2026-01-01", "b", 1),
        note(0, "2026-03-01", "c", 2),
        note(7, "2026-02-01", "a", 3),
    ];
    assert_eq!(select_notes(&notes, true), vec![1, 3]);
    assert_eq!(select_notes(&notes, false)[0], 2);
}

#[test]
fn days_are_counted_from_dates() {
    assert_eq!(parse_date_days("1970-01-01"), Some(0));
    assert_eq!(parse_date_days("2000-03-01").unwrap() - parse_date_days("2000-02-28").unwrap(), 2);
    assert_eq!(age_days("2026-02-27", "2026-03-01"), Some(2));
    assert_eq!(age_days("someday", "2026-03-01"), None);
}
