use kxen_core::knowledge::{
    date_of, is_cjk, is_word_char, known_note_type, resolve_needs, slugify, today, Entry, Kind, Scope,
};

fn entry(scope: Scope, kind: Kind, slug: &str, content: &str) -> Entry {
    Entry {
        scope,
        kind,
        slug: slug.into(),
        description: String::new(),
        content: content.into(),
        path: format!("/p/.agents/rules/{slug}.md"),
        enabled: true,
        always_apply: false,
        globs: vec![],
        needs: vec![],
        when_to_use: None,
        arguments: vec![],
        disable_model_invocation: false,
        user_invocable: true,
        argument_hint: None,
        note_type: None,
        date: String::new(),
        dir: String::new(),
        is_agents_md: false,
    }
}

#[test]
fn needs_resolve_injects_dep_bodies() {
    let entries = vec![entry(Scope::Project, Kind::Rule, "style-guide", "用 trash 不用 rm。\n")];
    let block = resolve_needs(&entries, &vec!["style-guide".into(), "missing".into()], true);
    assert!(block.contains("<knowledge-deps>"));
    assert!(block.contains("用 trash 不用 rm。"));
    assert!(resolve_needs(&entries, &vec!["missing".into()], true).is_empty());
    assert!(resolve_needs(&entries, &vec![], true).is_empty());
}

#[test]
fn needs_skip_untrusted_project_scope() {
    let entries = vec![entry(Scope::Project, Kind::Rule, "style-guide", "用 trash 不用 rm。\n")];
    assert!(resolve_needs(&entries, &vec!["style-guide".into()], false).is_empty());
    let personal = vec![entry(Scope::Personal, Kind::Rule, "style-guide", "mine")];
    assert!(resolve_needs(&personal, &vec!["style-guide".into()], false).contains("mine"));
}

#[test]
fn disabled_entries_are_no_dependencies() {
    let mut off = entry(Scope::Personal, Kind::Rule, "style-guide", "x");
    off.enabled = false;
    assert!(resolve_needs(&vec![off], &vec!["style-guide".into()], true).is_empty());
}

#[test]
fn slugify_keeps_cjk_and_uniquifies() {
    assert_eq!(slugify("Hello World"), "hello-world");
    assert_eq!(slugify("fix  login"), "fix-login");
    let a = slugify("修复登录页样式崩溃");
    assert!(a.starts_with("修复登录页样式崩溃-"), "{a}");
    assert_eq!(a.len(), "修复登录页样式崩溃-".len() + 8, "{a}");
    let b = slugify("修复：登录问题");
    assert!(b.starts_with("修复-登录问题-"), "{b}");
    assert_eq!(a, slugify("修复登录页样式崩溃"));
    assert_ne!(a, slugify("修复登录页样式崩坏"));
    assert_eq!(slugify("！！！"), "note");
}

#[test]
fn slugify_long_chinese_truncation_still_unique() {
    let prefix = "项目记忆蒸馏的中文长标题需要超过四十八个字符才能触发截断逻辑甲乙丙丁戊己庚辛壬癸子丑寅卯辰巳午未申酉";
    let a = slugify(&format!("{prefix}结尾一"));
    let b = slugify(&format!("{prefix}结尾二"));
    assert_ne!(a, b);
    for s in [&a, &b] {
        let body = s.rsplit_once('-').map(|(b, _)| b).unwrap();
        assert!(body.chars().count() <= 48, "{s}");
        assert!(!body.ends_with('-'), "{s}");
    }
}

#[test]
fn slugify_long_ascii_truncation_still_unique() {
    let prefix = "a".repeat(55);
    let first = slugify(&format!("{prefix}-first"));
    let second = slugify(&format!("{prefix}-second"));
    assert_ne!(first, second);
    assert!(first.len() > 48 && second.len() > 48);
    assert_eq!(slugify("short-ascii-note"), "short-ascii-note");
}

#[test]
fn slugs_end_in_the_digest_of_the_text() {
    // The digest of "中" begins with these bytes.
    let slug = slugify("中");
    assert_eq!(slug, "中-a567bdaa");
}

#[test]
fn scopes_and_kinds_go_by_their_names() {
    assert_eq!(Scope::parse("project"), Ok(Scope::Project));
    assert_eq!(Scope::parse("global"), Ok(Scope::Personal));
    assert_eq!(Scope::parse("team").unwrap_err(), "unknown scope: team (project|personal)");
    for kind in [
        Kind::Rule,
        Kind::Reference,
        Kind::Skill,
        Kind::Command,
        Kind::Note,
        Kind::Memory,
        Kind::History,
    ] {
        assert!(!kind.dir_name().is_empty());
    }
    assert_eq!(Kind::from_str("doc"), Some(Kind::Reference));
    assert_eq!(Kind::from_str("rules"), None);
    assert!(known_note_type("pitfall"));
    assert!(!known_note_type("rumour"));
}

#[test]
fn characters_are_told_apart() {
    assert!(is_cjk('中') && !is_cjk('a') && !is_cjk('あ'));
    assert!(is_word_char('a') && !is_word_char('！'));
}

#[test]
fn dates_are_written_with_all_their_digits() {
    assert_eq!(date_of(2026, 3, 7), "2026-03-07");
    let now = today();
    assert_eq!(now.len(), 10);
    assert_eq!(now.as_bytes()[4], b'-');
    assert!(now.as_str() > "2020-01-01");
}

#[test]
fn plain_names_share_and_keep_their_slugs() {
    assert_eq!(slugify("Fix, LOGIN!"), "fix-login");
    assert_eq!(slugify("fix login"), slugify("Fix, LOGIN!"));
    assert_eq!(slugify(&slugify("Fix, LOGIN!")), "fix-login");
    assert_eq!(slugify(&slugify("...")), "note");
    let cjk = slugify("修复登录");
    assert_ne!(slugify(&cjk), cjk);
}
