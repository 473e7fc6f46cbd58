use kxen_core::auth::{AuthStore, CredentialKind};
use kxen_core::doctor::{
    doctor_report, format_markdown, is_doctor_command, DoctorEntry, DoctorReport, LspHealth, Rule, ServerStatus,
    SystemHealth,
};

fn entry(provider: &str, display: &str, status: &str) -> DoctorEntry {
    DoctorEntry { provider: provider.into(), display: display.into(), status: status.into(), detail: String::new() }
}

fn report_with_system() -> DoctorReport {
    DoctorReport {
        runtime: "0.1.0".into(),
        data_dir: "/tmp/kxen-data".into(),
        config_dir: "/tmp/kxen-config".into(),
        entries: vec![
            entry("kimi", "Kimi for Coding", "ok"),
            entry("xai:work", "xAI work", "expired"),
            entry("anthropic", "Anthropic", "missing"),
        ],
        system: Some(SystemHealth {
            mcp: vec![ServerStatus {
                name: "fs".into(),
                status: "running".into(),
                transport: "stdio".into(),
                tools: 5,
                resources: 2,
            }],
            lsp_root: "/tmp/proj".into(),
            lsp: vec![LspHealth { language: "rust".into(), status: "running".into() }],
            mrm_describe: "global limit: 8".into(),
            mrm_dispatches: 3,
            bus_capacity: 256,
            bus_receivers: 2,
        }),
    }
}

#[test]
fn doctor_command_intercepts_exact_slash() {
    assert!(is_doctor_command("/doctor"));
    assert!(is_doctor_command("  /doctor  "));
    assert!(!is_doctor_command("/doctor extra"));
    assert!(!is_doctor_command("/doctorx"));
    assert!(!is_doctor_command("hello"));
}

#[test]
fn markdown_covers_all_sections() {
    let md = format_markdown(&report_with_system());
    for section in ["## 环境自检", "### 账号凭证", "### MCP Servers", "### LSP", "### MRM", "### Event Bus"] {
        assert!(md.contains(section), "{section} is missing:\n{md}");
    }
    assert!(md.contains("/tmp/kxen-data") && md.contains("/tmp/kxen-config"));
    assert!(md.contains("| Kimi for Coding | 正常 |"));
    assert!(md.contains("| xAI work | 已过期（下次调用自动刷新） |"));
    assert!(md.contains("| Anthropic | 未配置 |"));
    assert!(md.contains("| fs | 运行中 | stdio | 5 | 2 |"));
    assert!(md.contains("| rust | 运行中 |"));
    assert!(md.contains("global limit: 8") && md.contains("累计派发：3"));
    assert!(md.contains("容量：256") && md.contains("活跃订阅：2"));
}

#[test]
fn markdown_flags_bus_without_subscribers() {
    let mut report = report_with_system();
    report.system.as_mut().unwrap().bus_receivers = 0;
    let md = format_markdown(&report);
    assert!(md.contains("活跃订阅：0（异常"), "{md}");
}

#[test]
fn markdown_omits_system_when_absent() {
    let mut report = report_with_system();
    report.system = None;
    let md = format_markdown(&report);
    assert!(md.contains("### 账号凭证"));
    assert!(!md.contains("### MCP Servers") && !md.contains("### Event Bus"));
}

#[test]
fn markdown_says_so_where_nothing_runs() {
    let mut report = report_with_system();
    let system = report.system.as_mut().unwrap();
    system.mcp.clear();
    system.lsp.clear();
    let md = format_markdown(&report);
    assert!(md.contains("\n### MCP Servers\n\n（未配置）\n"), "{md}");
    assert!(md.contains("- 无已触发实例（懒启动：未触发 = 状态未知）\n"), "{md}");
    let mut other = report_with_system();
    other.system.as_mut().unwrap().mcp[0].status = "booting".into();
    assert!(format_markdown(&other).contains("| fs | booting | stdio | 5 | 2 |"));
}

#[test]
fn every_account_has_a_line() {
    let mut store = AuthStore::new();
    for key in ["xai", "xai:work", "xai:home", "xaifake"] {
        store.insert(key, CredentialKind::Api { key: "k".into(), region: None });
    }
    let rules = vec![
        Rule { provider: "kimi".into(), display: "Kimi".into() },
        Rule { provider: "xai".into(), display: "xAI".into() },
    ];
    let report = doctor_report(
        &store,
        &rules,
        &vec!["xai:home".to_string()],
        "1.0".into(),
        "/d".into(),
        "/c".into(),
    );
    let lines: Vec<(&str, &str, &str, &str)> = report
        .entries
        .iter()
        .map(|e| (e.provider.as_str(), e.display.as_str(), e.status.as_str(), e.detail.as_str()))
        .collect();
    assert_eq!(
        lines,
        vec![
            ("kimi", "Kimi", "missing", "no credential found"),
            ("xai", "xAI", "ok", "credential present"),
            ("xai:home", "xAI · home", "expired", "will refresh on next call"),
            ("xai:work", "xAI · work", "ok", "credential present"),
        ]
    );
    assert!(report.system.is_none());
}
