//! The self-check: which credentials there are, and how the parts of the
//! application are doing.

use crate::auth::{accounts_of, sorted_accounts, AuthStore, CredentialView};
use crate::text::{
    behind, cat2, cat3, cat4, cat5, cat7, decimal, decimal_of, str_eq, strip_prefix, trim, trimmed,
    ends, law_what_was_put_on_is_taken_off, occurs_at, starts, views,
};
use vstd::prelude::*;
use vstd::string::*;

verus! {

#[derive(Debug)]
pub struct DoctorEntry {
    pub provider: String,
    pub display: String,
    pub status: String,
    pub detail: String,
}

#[verifier::ext_equal]
pub struct EntryView {
    pub provider: Seq<char>,
    pub display: Seq<char>,
    pub status: Seq<char>,
    pub detail: Seq<char>,
}

impl View for DoctorEntry {
    type V = EntryView;

    open spec fn view(&self) -> EntryView {
        EntryView {
            provider: self.provider@,
            display: self.display@,
            status: self.status@,
            detail: self.detail@,
        }
    }
}

pub open spec fn entry_views(entries: Seq<DoctorEntry>) -> Seq<EntryView> {
    entries.map_values(|entry: DoctorEntry| entry@)
}

/// A server of tools.
#[derive(Debug)]
pub struct ServerStatus {
    pub name: String,
    pub status: String,
    pub transport: String,
    pub tools: usize,
    pub resources: usize,
}

#[derive(Debug)]
pub struct LspHealth {
    pub language: String,
    pub status: String,
}

#[derive(Debug)]
pub struct SystemHealth {
    pub mcp: Vec<ServerStatus>,
    pub lsp_root: String,
    pub lsp: Vec<LspHealth>,
    pub mrm_describe: String,
    pub mrm_dispatches: usize,
    pub bus_capacity: usize,
    pub bus_receivers: usize,
}

#[derive(Debug)]
pub struct DoctorReport {
    pub runtime: String,
    pub data_dir: String,
    pub config_dir: String,
    pub entries: Vec<DoctorEntry>,
    /// None where only the credentials were looked at.
    pub system: Option<SystemHealth>,
}

/// A provider whose credentials are looked for.
#[derive(Debug)]
pub struct Rule {
    pub provider: String,
    pub display: String,
}

/// The text is the command, and nothing but it.
pub fn is_doctor_command(text: &str) -> (r: bool)
    ensures
        r == (trimmed(text@) == "/doctor"@),
{
    let bare = trim(text);
    str_eq(bare.as_str(), "/doctor")
}

pub open spec fn is_in(list: Seq<Seq<char>>, text: Seq<char>) -> bool {
    list.contains(text)
}

fn occurs(list: &Vec<String>, text: &str) -> (r: bool)
    ensures
        r == is_in(views(list@), text@),
{
    let ghost all = views(list@);
    let mut i: usize = 0;
    while i < list.len()
        invariant
            i <= list@.len(),
            all == views(list@),
            forall|k: int| 0 <= k < i ==> #[trigger] all[k] != text@,
        decreases list@.len() - i,
    {
        assert(all[i as int] == list@[i as int]@);
        if str_eq(list[i].as_str(), text) {
            return true;
        }
        i = i + 1;
    }
    false
}

/// The line of an account. `expired` are the keys of the credentials that are.
pub open spec fn line_of(
    key: Seq<char>,
    display: Seq<char>,
    present: bool,
    expired: Seq<Seq<char>>,
) -> EntryView {
    if !present {
        EntryView {
            provider: key,
            display,
            status: "missing"@,
            detail: "no credential found"@,
        }
    } else if is_in(expired, key) {
        EntryView {
            provider: key,
            display,
            status: "expired"@,
            detail: "will refresh on next call"@,
        }
    } else {
        EntryView { provider: key, display, status: "ok"@, detail: "credential present"@ }
    }
}

fn account_line(key: &str, display: String, present: bool, expired: &Vec<String>) -> (r: DoctorEntry)
    ensures
        r@ == line_of(key@, display@, present, views(expired@)),
{
    let (status, detail) = if !present {
        ("missing", "no credential found")
    } else if occurs(expired, key) {
        ("expired", "will refresh on next call")
    } else {
        ("ok", "credential present")
    };
    DoctorEntry {
        provider: key.to_owned(),
        display,
        status: status.to_owned(),
        detail: detail.to_owned(),
    }
}

/// What a named account is called.
pub open spec fn shown_name(key: Seq<char>, provider: Seq<char>) -> Seq<char> {
    match behind(key, provider + ":"@) {
        Some(name) => name,
        None => key,
    }
}

/// The lines of the named accounts among these keys.
pub open spec fn named_lines(
    keys: Seq<Seq<char>>,
    provider: Seq<char>,
    display: Seq<char>,
    expired: Seq<Seq<char>>,
) -> Seq<EntryView>
    decreases keys.len(),
{
    if keys.len() == 0 {
        Seq::empty()
    } else {
        let head = named_lines(keys.drop_last(), provider, display, expired);
        if keys.last() == provider {
            head
        } else {
            head.push(
                line_of(
                    keys.last(),
                    display + " · "@ + shown_name(keys.last(), provider),
                    true,
                    expired,
                ),
            )
        }
    }
}

/// The lines of a provider: its default account, then the named ones in order.
pub open spec fn rule_lines(
    store: Map<Seq<char>, CredentialView>,
    rule: Rule,
    expired: Seq<Seq<char>>,
) -> Seq<EntryView> {
    seq![line_of(rule.provider@, rule.display@, store.contains_key(rule.provider@), expired)]
        + named_lines(
        sorted_accounts(store, rule.provider@),
        rule.provider@,
        rule.display@,
        expired,
    )
}

pub open spec fn report_lines(
    store: Map<Seq<char>, CredentialView>,
    rules: Seq<Rule>,
    expired: Seq<Seq<char>>,
) -> Seq<EntryView>
    decreases rules.len(),
{
    if rules.len() == 0 {
        Seq::empty()
    } else {
        report_lines(store, rules.drop_last(), expired) + rule_lines(store, rules.last(), expired)
    }
}

fn push_line(out: &mut Vec<DoctorEntry>, entry: DoctorEntry)
    ensures
        entry_views(final(out)@) == entry_views(old(out)@).push(entry@),
{
    let ghost before = out@;
    let ghost e = entry@;
    out.push(entry);
    assert(entry_views(out@) =~= entry_views(before).push(e));
}

fn push_rule(out: &mut Vec<DoctorEntry>, store: &AuthStore, rule: &Rule, expired: &Vec<String>)
    ensures
        entry_views(final(out)@) == entry_views(old(out)@) + rule_lines(
            store@,
            *rule,
            views(expired@),
        ),
{
    let ghost before = entry_views(out@);
    let ghost late = views(expired@);
    let provider = rule.provider.as_str();
    let present = store.contains(provider);
    let line = account_line(provider, rule.display.clone(), present, expired);
    let ghost first = line@;
    push_line(out, line);
    let keys = accounts_of(store, provider);
    let ghost all = views(keys@);
    let prefix = cat2(provider, ":");
    let mut i: usize = 0;
    assert(all.take(0) =~= Seq::<Seq<char>>::empty());
    assert(entry_views(out@) =~= before.push(first) + named_lines(
        all.take(0),
        provider@,
        rule.display@,
        late,
    ));
    while i < keys.len()
        invariant
            i <= keys@.len(),
            all == views(keys@),
            late == views(expired@),
            provider@ == rule.provider@,
            prefix@ == provider@ + ":"@,
            crate::auth::accounts_are(all, store@, provider@),
            entry_views(out@) == before.push(first) + named_lines(
                all.take(i as int),
                provider@,
                rule.display@,
                late,
            ),
        decreases keys@.len() - i,
    {
        assert(all.take(i + 1).drop_last() =~= all.take(i as int));
        assert(all.take(i + 1).last() == keys@[i as int]@);
        let key = keys[i].as_str();
        assert(all[i as int] == key@);
        assert(all.contains(key@));
        if !str_eq(key, provider) {
            let name = match strip_prefix(key, prefix.as_str()) {
                Some(name) => name,
                None => key.to_owned(),
            };
            let display = cat3(rule.display.as_str(), " · ", name.as_str());
            let line = account_line(key, display, true, expired);
            let ghost l = line@;
            let ghost lines = named_lines(all.take(i as int), provider@, rule.display@, late);
            push_line(out, line);
            assert(before.push(first) + lines.push(l) =~= (before.push(first) + lines).push(l));
        }
        i = i + 1;
    }
    assert(all.take(i as int) =~= all);
    let ghost named = named_lines(all, provider@, rule.display@, late);
    assert(before.push(first) + named =~= before + (seq![first] + named));
}

/// The report on the credentials: two accounts of one provider have a line each.
pub fn doctor_report(
    store: &AuthStore,
    rules: &Vec<Rule>,
    expired: &Vec<String>,
    runtime: String,
    data_dir: String,
    config_dir: String,
) -> (r: DoctorReport)
    ensures
        entry_views(r.entries@) == report_lines(store@, rules@, views(expired@)),
        r.runtime == runtime,
        r.data_dir == data_dir,
        r.config_dir == config_dir,
        r.system is None,
{
    let mut entries: Vec<DoctorEntry> = Vec::new();
    let mut i: usize = 0;
    assert(rules@.take(0) =~= Seq::<Rule>::empty());
    assert(entry_views(entries@) =~= Seq::<EntryView>::empty());
    while i < rules.len()
        invariant
            i <= rules@.len(),
            entry_views(entries@) == report_lines(
                store@,
                rules@.take(i as int),
                views(expired@),
            ),
        decreases rules@.len() - i,
    {
        assert(rules@.take(i + 1).drop_last() =~= rules@.take(i as int));
        push_rule(&mut entries, store, &rules[i], expired);
        i = i + 1;
    }
    assert(rules@.take(i as int) =~= rules@);
    DoctorReport { runtime, data_dir, config_dir, entries, system: None }
}

pub open spec fn status_label(status: Seq<char>) -> Seq<char> {
    if status == "ok"@ {
        "正常"@
    } else if status == "expired"@ {
        "已过期（下次调用自动刷新）"@
    } else {
        "未配置"@
    }
}

pub open spec fn entry_rows(entries: Seq<DoctorEntry>) -> Seq<char>
    decreases entries.len(),
{
    if entries.len() == 0 {
        Seq::empty()
    } else {
        entry_rows(entries.drop_last()) + ("| "@ + entries.last().display@ + " | "@ + status_label(
            entries.last().status@,
        ) + " |\n"@)
    }
}

pub open spec fn server_label(status: Seq<char>) -> Seq<char> {
    if status == "running"@ {
        "运行中"@
    } else if status == "down"@ {
        "不可用"@
    } else if status == "needs_auth"@ {
        "待授权"@
    } else {
        status
    }
}

pub open spec fn server_row(server: ServerStatus) -> Seq<char> {
    "| "@ + server.name@ + " | "@ + server_label(server.status@) + " | "@ + server.transport@ + " | "@
        + decimal(server.tools as nat) + " | "@ + decimal(server.resources as nat) + " |\n"@
}

pub open spec fn server_rows(servers: Seq<ServerStatus>) -> Seq<char>
    decreases servers.len(),
{
    if servers.len() == 0 {
        Seq::empty()
    } else {
        server_rows(servers.drop_last()) + server_row(servers.last())
    }
}

pub open spec fn lsp_label(status: Seq<char>) -> Seq<char> {
    if status == "running"@ {
        "运行中"@
    } else {
        status
    }
}

pub open spec fn lsp_rows(lsp: Seq<LspHealth>) -> Seq<char>
    decreases lsp.len(),
{
    if lsp.len() == 0 {
        Seq::empty()
    } else {
        lsp_rows(lsp.drop_last()) + ("| "@ + lsp.last().language@ + " | "@ + lsp_label(
            lsp.last().status@,
        ) + " |\n"@)
    }
}

pub open spec fn head_text(report: DoctorReport) -> Seq<char> {
    "## 环境自检\n\n- 版本："@ + report.runtime@ + "\n- 数据目录：`"@ + report.data_dir@
        + "`\n- 配置目录：`"@ + report.config_dir@
        + "`\n\n### 账号凭证\n\n| 账号 | 状态 |\n| --- | --- |\n"@
}

pub open spec fn system_text(s: SystemHealth) -> Seq<char> {
    "\n### MCP Servers\n\n"@ + (if s.mcp@.len() == 0 {
        "（未配置）\n"@
    } else {
        "| Server | 状态 | Transport | 工具 | 资源 |\n| --- | --- | --- | --- | --- |\n"@
            + server_rows(s.mcp@)
    }) + ("\n### LSP\n\n- root：`"@ + s.lsp_root@ + "`\n"@) + (if s.lsp@.len() == 0 {
        "- 无已触发实例（懒启动：未触发 = 状态未知）\n"@
    } else {
        "\n| 语言 | 状态 |\n| --- | --- |\n"@ + lsp_rows(s.lsp@)
    }) + ("\n### MRM\n\n```\n"@ + s.mrm_describe@ + "\n```\n\n- 累计派发："@ + decimal(
        s.mrm_dispatches as nat,
    ) + "\n"@) + ("\n### Event Bus\n\n- 容量："@ + decimal(s.bus_capacity as nat)
        + "\n- 活跃订阅："@ + decimal(s.bus_receivers as nat) + (if s.bus_receivers == 0 {
        "（异常：无订阅者，事件全在丢）"@
    } else {
        ""@
    }) + "\n"@)
}

/// The report as text. Without a look at the system nothing is said of it; a bus
/// that nobody listens to is marked.
pub open spec fn markdown(report: DoctorReport) -> Seq<char> {
    let credentials = head_text(report) + entry_rows(report.entries@);
    match report.system {
        None => credentials,
        Some(system) => credentials + system_text(system),
    }
}

fn write_entries(entries: &Vec<DoctorEntry>) -> (r: String)
    ensures
        r@ == entry_rows(entries@),
{
    let mut out: String = String::new();
    let mut i: usize = 0;
    assert(entries@.take(0) =~= Seq::<DoctorEntry>::empty());
    while i < entries.len()
        invariant
            i <= entries@.len(),
            out@ == entry_rows(entries@.take(i as int)),
        decreases entries@.len() - i,
    {
        assert(entries@.take(i + 1).drop_last() =~= entries@.take(i as int));
        let status = entries[i].status.as_str();
        let label = if str_eq(status, "ok") {
            "正常"
        } else if str_eq(status, "expired") {
            "已过期（下次调用自动刷新）"
        } else {
            "未配置"
        };
        let row = cat5("| ", entries[i].display.as_str(), " | ", label, " |\n");
        out.append(row.as_str());
        i = i + 1;
    }
    assert(entries@.take(i as int) =~= entries@);
    out
}

fn write_servers(servers: &Vec<ServerStatus>) -> (r: String)
    ensures
        r@ == server_rows(servers@),
{
    let mut out: String = String::new();
    let mut i: usize = 0;
    assert(servers@.take(0) =~= Seq::<ServerStatus>::empty());
    while i < servers.len()
        invariant
            i <= servers@.len(),
            out@ == server_rows(servers@.take(i as int)),
        decreases servers@.len() - i,
    {
        assert(servers@.take(i + 1).drop_last() =~= servers@.take(i as int));
        let server = &servers[i];
        let status = server.status.as_str();
        let label = if str_eq(status, "running") {
            "运行中"
        } else if str_eq(status, "down") {
            "不可用"
        } else if str_eq(status, "needs_auth") {
            "待授权"
        } else {
            status
        };
        let tools = decimal_of(server.tools as u64);
        let resources = decimal_of(server.resources as u64);
        let head = cat7(
            "| ",
            server.name.as_str(),
            " | ",
            label,
            " | ",
            server.transport.as_str(),
            " | ",
        );
        let row = cat5(head.as_str(), tools.as_str(), " | ", resources.as_str(), " |\n");
        out.append(row.as_str());
        i = i + 1;
    }
    assert(servers@.take(i as int) =~= servers@);
    out
}

fn write_lsp(lsp: &Vec<LspHealth>) -> (r: String)
    ensures
        r@ == lsp_rows(lsp@),
{
    let mut out: String = String::new();
    let mut i: usize = 0;
    assert(lsp@.take(0) =~= Seq::<LspHealth>::empty());
    while i < lsp.len()
        invariant
            i <= lsp@.len(),
            out@ == lsp_rows(lsp@.take(i as int)),
        decreases lsp@.len() - i,
    {
        assert(lsp@.take(i + 1).drop_last() =~= lsp@.take(i as int));
        let status = lsp[i].status.as_str();
        let label = if str_eq(status, "running") {
            "运行中"
        } else {
            status
        };
        let row = cat5("| ", lsp[i].language.as_str(), " | ", label, " |\n");
        out.append(row.as_str());
        i = i + 1;
    }
    assert(lsp@.take(i as int) =~= lsp@);
    out
}

fn write_system(s: &SystemHealth) -> (r: String)
    ensures
        r@ == system_text(*s),
{
    let mut out: String = "\n### MCP Servers\n\n".to_owned();
    if s.mcp.len() == 0 {
        out.append("（未配置）\n");
    } else {
        let rows = write_servers(&s.mcp);
        let table = cat2(
            "| Server | 状态 | Transport | 工具 | 资源 |\n| --- | --- | --- | --- | --- |\n",
            rows.as_str(),
        );
        out.append(table.as_str());
    }
    let root = cat3("\n### LSP\n\n- root：`", s.lsp_root.as_str(), "`\n");
    out.append(root.as_str());
    if s.lsp.len() == 0 {
        out.append("- 无已触发实例（懒启动：未触发 = 状态未知）\n");
    } else {
        let rows = write_lsp(&s.lsp);
        let table = cat2("\n| 语言 | 状态 |\n| --- | --- |\n", rows.as_str());
        out.append(table.as_str());
    }
    let dispatches = decimal_of(s.mrm_dispatches as u64);
    let mrm = cat5(
        "\n### MRM\n\n```\n",
        s.mrm_describe.as_str(),
        "\n```\n\n- 累计派发：",
        dispatches.as_str(),
        "\n",
    );
    out.append(mrm.as_str());
    let capacity = decimal_of(s.bus_capacity as u64);
    let receivers = decimal_of(s.bus_receivers as u64);
    let note = if s.bus_receivers == 0 {
        "（异常：无订阅者，事件全在丢）"
    } else {
        ""
    };
    let head = cat4(
        "\n### Event Bus\n\n- 容量：",
        capacity.as_str(),
        "\n- 活跃订阅：",
        receivers.as_str(),
    );
    let bus = cat3(head.as_str(), note, "\n");
    out.append(bus.as_str());
    out
}

pub fn format_markdown(report: &DoctorReport) -> (r: String)
    ensures
        r@ == markdown(*report),
{
    let mut out: String = cat7(
        "## 环境自检\n\n- 版本：",
        report.runtime.as_str(),
        "\n- 数据目录：`",
        report.data_dir.as_str(),
        "`\n- 配置目录：`",
        report.config_dir.as_str(),
        "`\n\n### 账号凭证\n\n| 账号 | 状态 |\n| --- | --- |\n",
    );
    let rows = write_entries(&report.entries);
    out.append(rows.as_str());
    if let Some(system) = &report.system {
        let text = write_system(system);
        out.append(text.as_str());
    }
    out
}

/// Each provider is reported on its own line, in order, and behind it each of its
/// other accounts.
pub proof fn law_each_provider_is_reported(
    store: Map<Seq<char>, CredentialView>,
    rules: Seq<Rule>,
    rule: Rule,
    expired: Seq<Seq<char>>,
)
    ensures
        ({
            let before = report_lines(store, rules, expired);
            let after = report_lines(store, rules.push(rule), expired);
            let line = after[before.len() as int];
            &&& before.len() < after.len()
            &&& after.take(before.len() as int) == before
            &&& line.provider == rule.provider@
            &&& line.display == rule.display@
            &&& line.status == "missing"@ <==> !store.contains_key(rule.provider@)
            &&& line.status == "expired"@ <==> store.contains_key(rule.provider@) && expired.contains(
                rule.provider@,
            )
            &&& line.status == "ok"@ <==> store.contains_key(rule.provider@) && !expired.contains(
                rule.provider@,
            )
            &&& after.skip(before.len() as int + 1) == named_lines(
                sorted_accounts(store, rule.provider@),
                rule.provider@,
                rule.display@,
                expired,
            )
        }),
        report_lines(store, Seq::empty(), expired).len() == 0,
{
    lemma_statuses();
    assert(rules.push(rule).drop_last() =~= rules);
    let before = report_lines(store, rules, expired);
    let after = report_lines(store, rules.push(rule), expired);
    assert(after.take(before.len() as int) =~= before);
    assert(after.skip(before.len() as int + 1) =~= named_lines(
        sorted_accounts(store, rule.provider@),
        rule.provider@,
        rule.display@,
        expired,
    ));
}

proof fn lemma_statuses()
    ensures
        "missing"@ != "expired"@,
        "missing"@ != "ok"@,
        "expired"@ != "ok"@,
{
    reveal_strlit("missing");
    reveal_strlit("expired");
    reveal_strlit("ok");
    assert("missing"@[0] == 'm' && "expired"@[0] == 'e' && "ok"@[0] == 'o');
}

/// Each account but the default one has a line with its own key and its own name,
/// and tells whether its credential has expired.
pub proof fn law_each_account_is_reported(
    keys: Seq<Seq<char>>,
    key: Seq<char>,
    provider: Seq<char>,
    display: Seq<char>,
    expired: Seq<Seq<char>>,
    account: Seq<char>,
)
    ensures
        ({
            let before = named_lines(keys, provider, display, expired);
            let after = named_lines(keys.push(key), provider, display, expired);
            &&& key == provider ==> after == before
            &&& key != provider ==> {
                &&& after.len() == before.len() + 1
                &&& after.drop_last() == before
                &&& after.last().provider == key
                &&& after.last().status == "expired"@ <==> expired.contains(key)
                &&& after.last().status == "ok"@ <==> !expired.contains(key)
                &&& starts(after.last().display, display)
                &&& key == provider + ":"@ + account ==> ends(after.last().display, account)
            }
        }),
        named_lines(Seq::empty(), provider, display, expired).len() == 0,
{
    lemma_statuses();
    assert(keys.push(key).drop_last() =~= keys);
    let before = named_lines(keys, provider, display, expired);
    let after = named_lines(keys.push(key), provider, display, expired);
    if key != provider {
        assert(after.drop_last() =~= before);
        let shown = after.last().display;
        assert(shown.subrange(0, display.len() as int) =~= display);
        if key == provider + ":"@ + account {
            law_what_was_put_on_is_taken_off(account, provider + ":"@);
            assert(shown.subrange(shown.len() - account.len(), shown.len() as int) =~= account);
        }
    }
}

/// Each entry has a row of its own that begins with its name and ends with its
/// status in words, behind the rows of those before it.
pub proof fn law_each_entry_has_a_row(entries: Seq<DoctorEntry>, entry: DoctorEntry)
    ensures
        starts(entry_rows(entries.push(entry)), entry_rows(entries) + "| "@ + entry.display@),
        entry.status@ == "ok"@ ==> ends(entry_rows(entries.push(entry)), " | 正常 |\n"@),
        entry.status@ == "expired"@ ==> ends(
            entry_rows(entries.push(entry)),
            " | 已过期（下次调用自动刷新） |\n"@,
        ),
        entry.status@ == "missing"@ ==> ends(entry_rows(entries.push(entry)), " | 未配置 |\n"@),
        entry_rows(Seq::empty()).len() == 0,
{
    lemma_statuses();
    assert(entries.push(entry).drop_last() =~= entries);
    let all = entry_rows(entries.push(entry));
    let head = entry_rows(entries) + "| "@ + entry.display@;
    assert(all.subrange(0, head.len() as int) =~= head);
    let label = status_label(entry.status@);
    let tail = " | "@ + label + " |\n"@;
    assert(all.subrange(all.len() - tail.len(), all.len() as int) =~= tail);
    reveal_strlit(" | ");
    reveal_strlit(" |\n");
    reveal_strlit("正常");
    reveal_strlit("已过期（下次调用自动刷新）");
    reveal_strlit("未配置");
    reveal_strlit(" | 正常 |\n");
    reveal_strlit(" | 已过期（下次调用自动刷新） |\n");
    reveal_strlit(" | 未配置 |\n");
    assert(" | "@ + "正常"@ + " |\n"@ =~= " | 正常 |\n"@);
    assert(" | "@ + "已过期（下次调用自动刷新）"@ + " |\n"@ =~= " | 已过期（下次调用自动刷新） |\n"@);
    assert(" | "@ + "未配置"@ + " |\n"@ =~= " | 未配置 |\n"@);
}

/// Each server has a row of its own with its name, its transport and how many tools
/// and resources it offers, in this order.
pub proof fn law_each_server_has_a_row(servers: Seq<ServerStatus>, server: ServerStatus)
    ensures
        starts(server_rows(servers.push(server)), server_rows(servers) + "| "@ + server.name@),
        ends(
            server_rows(servers.push(server)),
            server.transport@ + " | "@ + decimal(server.tools as nat) + " | "@ + decimal(
                server.resources as nat,
            ) + " |\n"@,
        ),
        server_rows(Seq::empty()).len() == 0,
{
    assert(servers.push(server).drop_last() =~= servers);
    let all = server_rows(servers.push(server));
    let head = server_rows(servers) + "| "@ + server.name@;
    assert(all.subrange(0, head.len() as int) =~= head);
    let tail = server.transport@ + " | "@ + decimal(server.tools as nat) + " | "@ + decimal(
        server.resources as nat,
    ) + " |\n"@;
    assert(all.subrange(all.len() - tail.len(), all.len() as int) =~= tail);
}

/// Each language has a row of its own that begins with its name.
pub proof fn law_each_language_has_a_row(lsp: Seq<LspHealth>, one: LspHealth)
    ensures
        starts(lsp_rows(lsp.push(one)), lsp_rows(lsp) + "| "@ + one.language@),
        one.status@ != "running"@ ==> ends(
            lsp_rows(lsp.push(one)),
            " | "@ + one.status@ + " |\n"@,
        ),
        lsp_rows(Seq::empty()).len() == 0,
{
    assert(lsp.push(one).drop_last() =~= lsp);
    let all = lsp_rows(lsp.push(one));
    let head = lsp_rows(lsp) + "| "@ + one.language@;
    assert(all.subrange(0, head.len() as int) =~= head);
    let tail = " | "@ + lsp_label(one.status@) + " |\n"@;
    assert(all.subrange(all.len() - tail.len(), all.len() as int) =~= tail);
}

proof fn lemma_left(a: Seq<char>, b: Seq<char>, x: Seq<char>)
    requires
        crate::text::occurs(a, x),
    ensures
        crate::text::occurs(a + b, x),
{
    let i = choose|i: int| occurs_at(a, x, i);
    assert((a + b).subrange(i, i + x.len()) =~= a.subrange(i, i + x.len()));
    assert(occurs_at(a + b, x, i));
}

proof fn lemma_right(a: Seq<char>, b: Seq<char>, x: Seq<char>)
    requires
        crate::text::occurs(b, x),
    ensures
        crate::text::occurs(a + b, x),
{
    let i = choose|i: int| occurs_at(b, x, i);
    let at = a.len() + i;
    assert((a + b).subrange(at, at + x.len()) =~= b.subrange(i, i + x.len()));
    assert(occurs_at(a + b, x, at));
}

proof fn lemma_itself(a: Seq<char>, x: Seq<char>)
    ensures
        crate::text::occurs(x, x),
        crate::text::occurs(a + x, x),
{
    assert(x.subrange(0, x.len() as int) =~= x);
    assert(occurs_at(x, x, 0));
    lemma_right(a, x, x);
}

/// The report holds what it is about: the version and the directories, and every row
/// of the credentials, at its end where nothing else was looked at.
pub proof fn law_report_is_whole(report: DoctorReport)
    ensures
        crate::text::occurs(markdown(report), report.runtime@),
        crate::text::occurs(markdown(report), report.data_dir@),
        crate::text::occurs(markdown(report), report.config_dir@),
        crate::text::occurs(markdown(report), entry_rows(report.entries@)),
        report.system is None ==> ends(markdown(report), entry_rows(report.entries@)),
        report.system matches Some(system) ==> ends(markdown(report), system_text(system)),
{
    let head = head_text(report);
    let rows = entry_rows(report.entries@);
    let base = head + rows;
    let a = "## 环境自检\n\n- 版本："@;
    let b = a + report.runtime@;
    let c = b + "\n- 数据目录：`"@;
    let d = c + report.data_dir@;
    let e = d + "`\n- 配置目录：`"@;
    let f = e + report.config_dir@;
    let x = report.runtime@;
    lemma_itself(a, x);
    lemma_left(b, "\n- 数据目录：`"@, x);
    lemma_left(c, report.data_dir@, x);
    lemma_left(d, "`\n- 配置目录：`"@, x);
    lemma_left(e, report.config_dir@, x);
    let y = report.data_dir@;
    lemma_itself(c, y);
    lemma_left(d, "`\n- 配置目录：`"@, y);
    lemma_left(e, report.config_dir@, y);
    let z = report.config_dir@;
    lemma_itself(e, z);
    let tail = "`\n\n### 账号凭证\n\n| 账号 | 状态 |\n| --- | --- |\n"@;
    lemma_left(f, tail, x);
    lemma_left(f, tail, y);
    lemma_left(f, tail, z);
    lemma_left(head, rows, x);
    lemma_left(head, rows, y);
    lemma_left(head, rows, z);
    lemma_itself(head, rows);
    assert(base.subrange(head.len() as int, base.len() as int) =~= rows);
    if let Some(system) = report.system {
        let more = system_text(system);
        lemma_left(base, more, x);
        lemma_left(base, more, y);
        lemma_left(base, more, z);
        lemma_left(base, more, rows);
        assert((base + more).subrange(base.len() as int, (base + more).len() as int) =~= more);
    }
}

proof fn lemma_sections(
    a: Seq<char>,
    b: Seq<char>,
    c: Seq<char>,
    d: Seq<char>,
    e: Seq<char>,
    f: Seq<char>,
    x: Seq<char>,
)
    requires
        crate::text::occurs(b, x) || crate::text::occurs(c, x) || crate::text::occurs(d, x)
            || crate::text::occurs(e, x) || crate::text::occurs(f, x),
    ensures
        crate::text::occurs(a + b + c + d + e + f, x),
{
    if crate::text::occurs(f, x) {
        lemma_right(a + b + c + d + e, f, x);
    } else {
        if crate::text::occurs(e, x) {
            lemma_right(a + b + c + d, e, x);
        } else {
            if crate::text::occurs(d, x) {
                lemma_right(a + b + c, d, x);
            } else {
                if crate::text::occurs(c, x) {
                    lemma_right(a + b, c, x);
                } else {
                    lemma_right(a, b, x);
                    lemma_left(a + b, c, x);
                }
                lemma_left(a + b + c, d, x);
            }
            lemma_left(a + b + c + d, e, x);
        }
        lemma_left(a + b + c + d + e, f, x);
    }
}

/// What is reported of the system holds the rows of its servers and of its
/// languages, what the resources are used for, and each number behind its own
/// title.
pub proof fn law_system_is_reported(s: SystemHealth)
    ensures
        s.mcp@.len() > 0 ==> crate::text::occurs(system_text(s), server_rows(s.mcp@)),
        s.lsp@.len() > 0 ==> crate::text::occurs(system_text(s), lsp_rows(s.lsp@)),
        crate::text::occurs(system_text(s), s.lsp_root@),
        crate::text::occurs(system_text(s), s.mrm_describe@),
        crate::text::occurs(
            system_text(s),
            "\n```\n\n- 累计派发："@ + decimal(s.mrm_dispatches as nat),
        ),
        crate::text::occurs(
            system_text(s),
            "\n### Event Bus\n\n- 容量："@ + decimal(s.bus_capacity as nat),
        ),
        crate::text::occurs(
            system_text(s),
            "\n- 活跃订阅："@ + decimal(s.bus_receivers as nat),
        ),
{
    let a = "\n### MCP Servers\n\n"@;
    let title = "| Server | 状态 | Transport | 工具 | 资源 |\n| --- | --- | --- | --- | --- |\n"@;
    let b = if s.mcp@.len() == 0 {
        "（未配置）\n"@
    } else {
        title + server_rows(s.mcp@)
    };
    let root = "\n### LSP\n\n- root：`"@;
    let c = root + s.lsp_root@ + "`\n"@;
    let table = "\n| 语言 | 状态 |\n| --- | --- |\n"@;
    let d = if s.lsp@.len() == 0 {
        "- 无已触发实例（懒启动：未触发 = 状态未知）\n"@
    } else {
        table + lsp_rows(s.lsp@)
    };
    let mrm = "\n### MRM\n\n```\n"@;
    let calls = "\n```\n\n- 累计派发："@;
    let e = mrm + s.mrm_describe@ + calls + decimal(s.mrm_dispatches as nat) + "\n"@;
    let capacity = "\n### Event Bus\n\n- 容量："@ + decimal(s.bus_capacity as nat);
    let receivers = "\n- 活跃订阅："@;
    let rest = if s.bus_receivers == 0 {
        "（异常：无订阅者，事件全在丢）"@
    } else {
        ""@
    };
    let f = capacity + receivers + decimal(s.bus_receivers as nat) + rest + "\n"@;
    assert(system_text(s) == a + b + c + d + e + f);
    if s.mcp@.len() > 0 {
        lemma_itself(title, server_rows(s.mcp@));
        lemma_sections(a, b, c, d, e, f, server_rows(s.mcp@));
    }
    lemma_itself(root, s.lsp_root@);
    lemma_left(root + s.lsp_root@, "`\n"@, s.lsp_root@);
    lemma_sections(a, b, c, d, e, f, s.lsp_root@);
    if s.lsp@.len() > 0 {
        lemma_itself(table, lsp_rows(s.lsp@));
        lemma_sections(a, b, c, d, e, f, lsp_rows(s.lsp@));
    }
    lemma_numbers(mrm, s.mrm_describe@, calls, decimal(s.mrm_dispatches as nat), "\n"@);
    lemma_sections(a, b, c, d, e, f, s.mrm_describe@);
    lemma_sections(a, b, c, d, e, f, calls + decimal(s.mrm_dispatches as nat));
    lemma_itself(Seq::empty(), capacity);
    lemma_left(capacity, receivers, capacity);
    lemma_left(capacity + receivers, decimal(s.bus_receivers as nat), capacity);
    lemma_left(capacity + receivers + decimal(s.bus_receivers as nat), rest, capacity);
    lemma_left(capacity + receivers + decimal(s.bus_receivers as nat) + rest, "\n"@, capacity);
    lemma_sections(a, b, c, d, e, f, capacity);
    let x = receivers + decimal(s.bus_receivers as nat);
    assert(capacity + receivers + decimal(s.bus_receivers as nat) =~= capacity + x);
    lemma_itself(capacity, x);
    lemma_left(capacity + x, rest, x);
    lemma_left(capacity + x + rest, "\n"@, x);
    lemma_sections(a, b, c, d, e, f, x);
}

proof fn lemma_numbers(a: Seq<char>, b: Seq<char>, c: Seq<char>, d: Seq<char>, e: Seq<char>)
    ensures
        crate::text::occurs(a + b + c + d + e, b),
        crate::text::occurs(a + b + c + d + e, c + d),
{
    lemma_itself(a, b);
    lemma_left(a + b, c, b);
    lemma_left(a + b + c, d, b);
    lemma_left(a + b + c + d, e, b);
    assert(a + b + c + d =~= a + b + (c + d));
    lemma_itself(a + b, c + d);
    lemma_left(a + b + (c + d), e, c + d);
}

} // verus!
