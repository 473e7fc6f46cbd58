//! Notes, rules and skills that outlive a session: a tree of markdown files in
//! the project and one in the home directory.

use crate::ident::{short_digest, text_digest};
use crate::text::{
    cat2, cat3, cat5, decimal, decimal_of, first_chars, law_digits_say_the_number, numeral, starts, str_eq, take_chars, to_ascii_lower, trim,
    trim_end_matches, trim_start_matches, trimmed, trimmed_front, trimmed_of, views,
};
use vstd::prelude::*;
use vstd::string::*;

pub mod consolidate;
pub mod distill;
pub mod embedding;
pub mod embedding_cache;
pub mod render;
pub mod retrieval;
pub mod scan;
pub mod store;

verus! {

/// Where an entry lives, and for whom it holds.
#[derive(Debug, Clone, Copy, PartialEq, Eq, Structural)]
pub enum Scope {
    Project,
    Personal,
}

/// The scope of this name; `global` is an old name of the personal one.
pub open spec fn scope_named(name: Seq<char>) -> Option<Scope> {
    if name == "project"@ {
        Some(Scope::Project)
    } else if name == "personal"@ || name == "global"@ {
        Some(Scope::Personal)
    } else {
        None
    }
}

impl Scope {
    pub open spec fn name(self) -> Seq<char> {
        match self {
            Scope::Project => "project"@,
            Scope::Personal => "personal"@,
        }
    }

    pub fn parse(s: &str) -> (r: Result<Scope, String>)
        ensures
            match scope_named(s@) {
                Some(scope) => r == Ok::<Scope, String>(scope),
                None => r matches Err(e) && e@ == "unknown scope: "@ + s@
                    + " (project|personal)"@,
            },
    {
        if str_eq(s, "project") {
            Ok(Scope::Project)
        } else if str_eq(s, "personal") || str_eq(s, "global") {
            Ok(Scope::Personal)
        } else {
            Err(cat3("unknown scope: ", s, " (project|personal)"))
        }
    }

    pub fn as_str(&self) -> (r: &'static str)
        ensures
            r@ == self.name(),
    {
        match self {
            Scope::Project => "project",
            Scope::Personal => "personal",
        }
    }
}

/// A scope is read back from its name.
pub proof fn law_scope_names_round_trip(scope: Scope)
    ensures
        scope_named(scope.name()) == Some(scope),
{
    reveal_strlit("project");
    reveal_strlit("personal");
    assert("project"@.len() != "personal"@.len());
}

#[derive(Debug, Clone, Copy, PartialEq, Eq, Structural)]
pub enum Kind {
    Rule,
    Reference,
    Skill,
    Command,
    Note,
    Memory,
    History,
}

/// The kind of this name; `doc` is another name of a reference.
pub open spec fn kind_named(name: Seq<char>) -> Option<Kind> {
    if name == "rule"@ {
        Some(Kind::Rule)
    } else if name == "reference"@ || name == "doc"@ {
        Some(Kind::Reference)
    } else if name == "skill"@ {
        Some(Kind::Skill)
    } else if name == "command"@ {
        Some(Kind::Command)
    } else if name == "note"@ {
        Some(Kind::Note)
    } else if name == "memory"@ {
        Some(Kind::Memory)
    } else if name == "history"@ {
        Some(Kind::History)
    } else {
        None
    }
}

impl Kind {
    pub open spec fn dir(self) -> Seq<char> {
        match self {
            Kind::Rule => "rules"@,
            Kind::Reference => "references"@,
            Kind::Skill => "skills"@,
            Kind::Command => "commands"@,
            Kind::Note => "notes"@,
            Kind::Memory => "memory"@,
            Kind::History => "history"@,
        }
    }

    pub fn from_str(s: &str) -> (r: Option<Kind>)
        ensures
            r == kind_named(s@),
    {
        if str_eq(s, "rule") {
            Some(Kind::Rule)
        } else if str_eq(s, "reference") || str_eq(s, "doc") {
            Some(Kind::Reference)
        } else if str_eq(s, "skill") {
            Some(Kind::Skill)
        } else if str_eq(s, "command") {
            Some(Kind::Command)
        } else if str_eq(s, "note") {
            Some(Kind::Note)
        } else if str_eq(s, "memory") {
            Some(Kind::Memory)
        } else if str_eq(s, "history") {
            Some(Kind::History)
        } else {
            None
        }
    }

    pub fn dir_name(&self) -> (r: &'static str)
        ensures
            r@ == self.dir(),
    {
        match self {
            Kind::Rule => "rules",
            Kind::Reference => "references",
            Kind::Skill => "skills",
            Kind::Command => "commands",
            Kind::Note => "notes",
            Kind::Memory => "memory",
            Kind::History => "history",
        }
    }
}

/// One of the sub-types of a note.
pub open spec fn is_note_type(name: Seq<char>) -> bool {
    ||| name == "correction"@
    ||| name == "convention"@
    ||| name == "pitfall"@
    ||| name == "preference"@
    ||| name == "note"@
}

pub fn known_note_type(name: &str) -> (r: bool)
    ensures
        r == is_note_type(name@),
{
    str_eq(name, "correction") || str_eq(name, "convention") || str_eq(name, "pitfall") || str_eq(
        name,
        "preference",
    ) || str_eq(name, "note")
}

/// A file of the knowledge trees.
#[derive(Debug, PartialEq, Eq)]
pub struct Entry {
    pub scope: Scope,
    pub kind: Kind,
    pub slug: String,
    pub description: String,
    pub content: String,
    pub path: String,
    pub enabled: bool,
    pub always_apply: bool,
    pub globs: Vec<String>,
    /// Slugs of the entries that are loaded with this one.
    pub needs: Vec<String>,
    pub when_to_use: Option<String>,
    pub arguments: Vec<String>,
    pub disable_model_invocation: bool,
    pub user_invocable: bool,
    pub argument_hint: Option<String>,
    pub note_type: Option<String>,
    pub date: String,
    /// The directory of a skill that has one; empty else.
    pub dir: String,
    /// An `AGENTS.md` or the like, which stands outside the tree.
    pub is_agents_md: bool,
}

/// An ideograph.
pub open spec fn is_ideograph(c: char) -> bool {
    ||| '\u{3400}' <= c <= '\u{4DBF}'
    ||| '\u{4E00}' <= c <= '\u{9FFF}'
    ||| '\u{F900}' <= c <= '\u{FAFF}'
}

pub fn is_cjk(c: char) -> (r: bool)
    ensures
        r == is_ideograph(c),
{
    ('\u{3400}' <= c && c <= '\u{4DBF}') || ('\u{4E00}' <= c && c <= '\u{9FFF}') || ('\u{F900}' <= c
        && c <= '\u{FAFF}')
}

/// An ASCII letter or digit.
pub open spec fn is_word(c: char) -> bool {
    ||| 'a' <= c <= 'z'
    ||| 'A' <= c <= 'Z'
    ||| '0' <= c <= '9'
}

pub fn is_word_char(c: char) -> (r: bool)
    ensures
        r == is_word(c),
{
    ('a' <= c && c <= 'z') || ('A' <= c && c <= 'Z') || ('0' <= c && c <= '9')
}

/// The text with everything but words and ideographs folded into dashes. The
/// start counts as a dash.
pub open spec fn folded(text: Seq<char>) -> Seq<char>
    decreases text.len(),
{
    if text.len() == 0 {
        Seq::empty()
    } else {
        let head = folded(text.drop_last());
        let c = text.last();
        if is_word(c) {
            head.push(crate::text::ascii_lower(c))
        } else if is_ideograph(c) {
            head.push(c)
        } else if head.len() > 0 && head.last() != '-' {
            head.push('-')
        } else {
            head
        }
    }
}

pub open spec fn has_ideograph(text: Seq<char>) -> bool {
    exists|i: int| 0 <= i < text.len() && is_ideograph(#[trigger] text[i])
}

/// The folded text without dashes at its ends.
pub open spec fn slug_body(text: Seq<char>) -> Seq<char> {
    trimmed_of(trimmed_front(folded(text), '-'), '-')
}

/// The folded text, cut to 48 characters.
pub open spec fn slug_stem(text: Seq<char>) -> Seq<char> {
    trimmed_of(first_chars(slug_body(text), 48), '-')
}

/// The name of an entry's file. A text with ideographs, or one that was cut, has
/// a digest of the whole text at its end: it stays apart from others that begin
/// alike.
pub open spec fn slug_of(text: Seq<char>) -> Seq<char> {
    let stem = slug_stem(text);
    if stem.len() == 0 {
        "note"@
    } else if !has_ideograph(text) && slug_body(text).len() <= 48 {
        stem
    } else {
        stem + "-"@ + short_digest(text, 4)
    }
}

pub fn slugify(text: &str) -> (r: String)
    ensures
        r@ == slug_of(text@),
        0 < r@.len() <= 57,
{
    proof {
        law_slug_is_short(text@);
        reveal_strlit("note");
        reveal_strlit("-");
    }
    let chars = crate::text::chars_of(text);
    let mut out: String = String::new();
    let mut dash = true;
    let mut ideographs = false;
    let mut i: usize = 0;
    assert(chars@.take(0) =~= Seq::<char>::empty());
    while i < chars.len()
        invariant
            i <= chars@.len(),
            out@ == folded(chars@.take(i as int)),
            dash == !(out@.len() > 0 && out@.last() != '-'),
            ideographs == has_ideograph(chars@.take(i as int)),
        decreases chars@.len() - i,
    {
        let c = chars[i];
        let ghost here = chars@.take(i + 1);
        let ghost before = chars@.take(i as int);
        proof {
            assert(here.drop_last() =~= before);
            assert(here.last() == c);
            assert(has_ideograph(here) == (has_ideograph(before) || is_ideograph(c))) by {
                if has_ideograph(before) {
                    let k = choose|k: int| 0 <= k < before.len() && is_ideograph(#[trigger] before[k]);
                    assert(here[k] == before[k]);
                }
                if is_ideograph(c) {
                    assert(is_ideograph(here[i as int]));
                }
                if has_ideograph(here) {
                    let k = choose|k: int| 0 <= k < here.len() && is_ideograph(#[trigger] here[k]);
                    if k < i {
                        assert(before[k] == here[k]);
                    }
                }
            }
        }
        if is_word_char(c) {
            out.push(to_ascii_lower(c));
            dash = false;
        } else if is_cjk(c) {
            ideographs = true;
            out.push(c);
            dash = false;
        } else if !dash {
            out.push('-');
            dash = true;
        }
        i = i + 1;
    }
    assert(chars@.take(i as int) =~= text@);
    let front = trim_start_matches(out.as_str(), '-');
    let body = trim_end_matches(front.as_str(), '-');
    let cut = crate::text::chars_of(body.as_str()).len() > 48;
    let capped = take_chars(body.as_str(), 48);
    let stem = trim_end_matches(capped.as_str(), '-');
    if stem.as_str().is_empty() {
        return "note".to_owned();
    }
    if !ideographs && !cut {
        return stem;
    }
    let digest = text_digest(text, 4);
    cat3(stem.as_str(), "-", digest.as_str())
}

/// A slug is never empty, and its stem has at most 48 characters.
pub proof fn law_slug_is_short(text: Seq<char>)
    ensures
        slug_of(text).len() > 0,
        slug_stem(text).len() <= 48,
        slug_of(text).len() <= 49 + short_digest(text, 4).len(),
{
    reveal_strlit("note");
    reveal_strlit("-");
    lemma_trimmed_of_len(first_chars(slug_body(text), 48), '-');
}

proof fn lemma_trimmed_of_len(s: Seq<char>, c: char)
    ensures
        trimmed_of(s, c).len() <= s.len(),
    decreases s.len(),
{
    if s.len() > 0 && s.last() == c {
        lemma_trimmed_of_len(s.drop_last(), c);
    }
}

/// Short names without ideographs that differ in case and punctuation only share
/// a slug: what is written about the same matter goes to the same file.
pub proof fn law_like_names_share_a_slug(a: Seq<char>, b: Seq<char>)
    requires
        folded(a) == folded(b),
        !has_ideograph(a),
        !has_ideograph(b),
        slug_body(a).len() <= 48,
    ensures
        slug_of(a) == slug_of(b),
{
}

/// Small letters, digits and single dashes, of which none comes first.
pub open spec fn is_folded(s: Seq<char>) -> bool {
    forall|i: int|
        0 <= i < s.len() ==> {
            let c = #[trigger] s[i];
            if c == '-' {
                i > 0 && s[i - 1] != '-'
            } else {
                is_word(c) && crate::text::ascii_lower(c) == c
            }
        }
}

proof fn lemma_folded(text: Seq<char>)
    requires
        !has_ideograph(text),
    ensures
        is_folded(folded(text)),
    decreases text.len(),
{
    if text.len() > 0 {
        let init = text.drop_last();
        let c = text.last();
        assert(!has_ideograph(init)) by {
            if has_ideograph(init) {
                let i = choose|i: int| 0 <= i < init.len() && is_ideograph(#[trigger] init[i]);
                assert(is_ideograph(text[i]));
            }
        }
        assert(!is_ideograph(text[text.len() - 1]));
        lemma_folded(init);
        let head = folded(init);
        let out = folded(text);
        assert forall|i: int| 0 <= i < out.len() implies ({
            let c = #[trigger] out[i];
            if c == '-' {
                i > 0 && out[i - 1] != '-'
            } else {
                is_word(c) && crate::text::ascii_lower(c) == c
            }
        }) by {
            if i < head.len() {
                assert(out[i] == head[i]);
                if i > 0 {
                    assert(out[i - 1] == head[i - 1]);
                }
            } else if i > 0 {
                assert(out[i - 1] == head[i - 1]);
            }
        }
    }
}

proof fn lemma_folded_again(s: Seq<char>)
    requires
        is_folded(s),
    ensures
        folded(s) == s,
    decreases s.len(),
{
    if s.len() > 0 {
        let init = s.drop_last();
        assert(is_folded(init)) by {
            assert forall|i: int| 0 <= i < init.len() implies ({
                let c = #[trigger] init[i];
                if c == '-' {
                    i > 0 && init[i - 1] != '-'
                } else {
                    is_word(c) && crate::text::ascii_lower(c) == c
                }
            }) by {
                assert(init[i] == s[i]);
            }
        }
        lemma_folded_again(init);
        let at = s.len() - 1;
        assert(s[at] == s.last());
        assert(init.push(s.last()) =~= s);
    }
}

proof fn lemma_trimmed_folded(s: Seq<char>)
    requires
        is_folded(s),
    ensures
        is_folded(trimmed_of(s, '-')),
        trimmed_of(s, '-').len() > 0 ==> trimmed_of(s, '-').last() != '-',
    decreases s.len(),
{
    if s.len() > 0 && s.last() == '-' {
        let init = s.drop_last();
        assert forall|i: int| 0 <= i < init.len() implies ({
            let c = #[trigger] init[i];
            if c == '-' {
                i > 0 && init[i - 1] != '-'
            } else {
                is_word(c) && crate::text::ascii_lower(c) == c
            }
        }) by {
            assert(init[i] == s[i]);
        }
        lemma_trimmed_folded(init);
    }
}

/// A short slug without ideographs is its own slug: an entry is found under the
/// name that its file has.
pub proof fn law_plain_slug_is_stable(text: Seq<char>)
    requires
        !has_ideograph(text),
        slug_body(text).len() <= 48,
    ensures
        slug_of(slug_of(text)) == slug_of(text),
{
    reveal_strlit("note");
    let wide = folded(text);
    lemma_folded(text);
    if wide.len() > 0 {
        assert(wide[0] != '-');
    }
    lemma_trimmed_folded(wide);
    let body = slug_body(text);
    assert(body == trimmed_of(wide, '-'));
    assert(slug_stem(text) == body);
    let slug = slug_of(text);
    assert(is_folded(slug));
    lemma_folded_again(slug);
    assert(slug[0] != '-');
    assert(slug[slug.len() - 1] != '-');
    assert(slug_body(slug) == slug);
    assert(!has_ideograph(slug)) by {
        if has_ideograph(slug) {
            let i = choose|i: int| 0 <= i < slug.len() && is_ideograph(#[trigger] slug[i]);
            assert(slug[i] == '-' || is_word(slug[i]));
        }
    }
}

/// Two texts whose slugs carry a digest have the same slug only where they have
/// the same digest.
pub proof fn law_digests_keep_slugs_apart(a: Seq<char>, b: Seq<char>)
    requires
        slug_stem(a).len() > 0,
        slug_stem(b).len() > 0,
        has_ideograph(a) || slug_body(a).len() > 48,
        has_ideograph(b) || slug_body(b).len() > 48,
        slug_of(a) == slug_of(b),
    ensures
        short_digest(a, 4).len() == short_digest(b, 4).len() ==> short_digest(a, 4)
            == short_digest(b, 4),
{
    let da = short_digest(a, 4);
    let db = short_digest(b, 4);
    let s = slug_of(a);
    let n = da.len() as int;
    assert(s.subrange(s.len() - n, s.len() as int) =~= da);
    if da.len() == db.len() {
        assert(s.subrange(s.len() - n, s.len() as int) =~= db);
    }
}

/// `n` with zeros before it, so that it has at least `width` digits.
pub open spec fn padded(n: nat, width: nat) -> Seq<char>
    decreases width,
{
    if width <= 1 {
        decimal(n)
    } else if n >= pow10((width - 1) as nat) {
        decimal(n)
    } else {
        seq!['0'] + padded(n, (width - 1) as nat)
    }
}

pub open spec fn pow10(n: nat) -> nat
    decreases n,
{
    if n == 0 {
        1
    } else {
        10 * pow10((n - 1) as nat)
    }
}

fn pad2(n: u64) -> (r: String)
    ensures
        r@ == padded(n as nat, 2),
{
    proof {
        reveal_with_fuel(padded, 3);
        reveal_with_fuel(pow10, 3);
    }
    let digits = decimal_of(n);
    if n >= 10 {
        digits
    } else {
        let r = cat2("0", digits.as_str());
        proof {
            reveal_strlit("0");
            assert("0"@ =~= seq!['0']);
        }
        r
    }
}

fn pad4(n: u64) -> (r: String)
    ensures
        r@ == padded(n as nat, 4),
{
    proof {
        reveal_with_fuel(padded, 5);
        reveal_with_fuel(pow10, 5);
        reveal_strlit("0");
        assert("0"@ =~= seq!['0']);
    }
    if n >= 100 {
        let digits = decimal_of(n);
        if n >= 1000 {
            digits
        } else {
            cat2("0", digits.as_str())
        }
    } else {
        let rest = pad2(n);
        let r = cat3("0", "0", rest.as_str());
        assert(r@ =~= seq!['0'] + (seq!['0'] + rest@));
        r
    }
}

/// A year of at least four characters; a sign is one of them.
pub open spec fn year_text(year: int) -> Seq<char> {
    if year < 0 {
        "-"@ + padded((-year) as nat, 3)
    } else {
        padded(year as nat, 4)
    }
}

/// A day as `YYYY-MM-DD`.
pub open spec fn date_text(year: int, month: nat, day: nat) -> Seq<char> {
    year_text(year) + "-"@ + padded(month, 2) + "-"@ + padded(day, 2)
}

fn pad3(n: u64) -> (r: String)
    ensures
        r@ == padded(n as nat, 3),
{
    proof {
        reveal_with_fuel(padded, 4);
        reveal_with_fuel(pow10, 4);
        reveal_strlit("0");
        assert("0"@ =~= seq!['0']);
    }
    if n >= 100 {
        decimal_of(n)
    } else {
        let rest = pad2(n);
        cat2("0", rest.as_str())
    }
}

pub fn date_of(year: i32, month: u8, day: u8) -> (r: String)
    ensures
        r@ == date_text(year as int, month as nat, day as nat),
{
    let y = if year < 0 {
        let digits = pad3((-(year as i64)) as u64);
        cat2("-", digits.as_str())
    } else {
        pad4(year as u64)
    };
    let m = pad2(month as u64);
    let d = pad2(day as u64);
    cat5(y.as_str(), "-", m.as_str(), "-", d.as_str())
}

/// `time::OffsetDateTime::now_utc`: year, month and day of the clock. A month is
/// one of twelve, and a day one of thirty-one; which they are is up to the clock.
#[verifier::external_body]
fn utc_day() -> (r: (i32, u8, u8))
    ensures
        1 <= r.1 <= 12,
        1 <= r.2 <= 31,
{
    let now = time::OffsetDateTime::now_utc();
    (now.year(), now.month() as u8, now.day())
}

/// The day of the clock as `YYYY-MM-DD`.
pub fn today() -> (r: String)
    ensures
        exists|year: int, month: nat, day: nat|
            1 <= month <= 12 && 1 <= day <= 31 && r@ == #[trigger] date_text(year, month, day),
{
    let (year, month, day) = utc_day();
    assert(1 <= month as nat && 1 <= day as nat);
    date_of(year, month, day)
}

/// An entry that may be loaded as a dependency: it is enabled, and it is not the
/// project's where the project is not trusted.
pub open spec fn loadable(entry: Entry, slug: Seq<char>, trusted: bool) -> bool {
    entry.enabled && entry.slug@ == slug && (trusted || entry.scope != Scope::Project)
}

/// The first entry that may be loaded under this slug.
pub open spec fn dependency(entries: Seq<Entry>, slug: Seq<char>, trusted: bool) -> Option<Entry>
    decreases entries.len(),
{
    if entries.len() == 0 {
        None
    } else if loadable(entries[0], slug, trusted) {
        Some(entries[0])
    } else {
        dependency(entries.subrange(1, entries.len() as int), slug, trusted)
    }
}

pub open spec fn dependency_text(entry: Entry) -> Seq<char> {
    "## ["@ + entry.kind.dir() + "] "@ + entry.description@ + "\n"@ + trimmed(entry.content@)
        + "\n\n"@
}

/// The texts of the dependencies that were found, in the order of `needs`.
pub open spec fn dependency_texts(entries: Seq<Entry>, needs: Seq<Seq<char>>, trusted: bool) -> Seq<char>
    decreases needs.len(),
{
    if needs.len() == 0 {
        Seq::empty()
    } else {
        let head = dependency_texts(entries, needs.drop_last(), trusted);
        match dependency(entries, slug_of(needs.last()), trusted) {
            Some(entry) => head + dependency_text(entry),
            None => head,
        }
    }
}

pub open spec fn any_dependency(entries: Seq<Entry>, needs: Seq<Seq<char>>, trusted: bool) -> bool {
    exists|i: int|
        0 <= i < needs.len() && dependency(entries, slug_of(#[trigger] needs[i]), trusted) is Some
}

/// The dependencies as one block; nothing where none was found.
pub open spec fn needs_block(entries: Seq<Entry>, needs: Seq<Seq<char>>, trusted: bool) -> Seq<char> {
    if any_dependency(entries, needs, trusted) {
        "\n<knowledge-deps>\n"@ + dependency_texts(entries, needs, trusted)
            + "</knowledge-deps>\n"@
    } else {
        Seq::empty()
    }
}

fn find_dependency<'a>(entries: &'a Vec<Entry>, slug: &str, trusted: bool) -> (r: Option<&'a Entry>)
    ensures
        (match r {
            Some(entry) => Some(*entry),
            None => None,
        }) == dependency(entries@, slug@, trusted),
{
    let mut i: usize = 0;
    assert(entries@.subrange(0, entries@.len() as int) =~= entries@);
    while i < entries.len()
        invariant
            i <= entries@.len(),
            dependency(entries@, slug@, trusted) == dependency(
                entries@.subrange(i as int, entries@.len() as int),
                slug@,
                trusted,
            ),
        decreases entries@.len() - i,
    {
        let ghost rest = entries@.subrange(i as int, entries@.len() as int);
        assert(rest[0] == entries@[i as int]);
        assert(rest.subrange(1, rest.len() as int) =~= entries@.subrange(
            i + 1,
            entries@.len() as int,
        ));
        if entries[i].enabled && (trusted || entries[i].scope != Scope::Project) && str_eq(
            entries[i].slug.as_str(),
            slug,
        ) {
            return Some(&entries[i]);
        }
        i = i + 1;
    }
    None
}

/// The block with the dependencies `needs` among the entries that were scanned.
pub fn resolve_needs(entries: &Vec<Entry>, needs: &Vec<String>, trusted: bool) -> (r: String)
    ensures
        r@ == needs_block(entries@, views(needs@), trusted),
{
    let mut body: String = String::new();
    let mut hit = false;
    let ghost all = views(needs@);
    let mut i: usize = 0;
    assert(all.take(0) =~= Seq::<Seq<char>>::empty());
    while i < needs.len()
        invariant
            i <= needs@.len(),
            all == views(needs@),
            body@ == dependency_texts(entries@, all.take(i as int), trusted),
            hit == any_dependency(entries@, all.take(i as int), trusted),
        decreases needs@.len() - i,
    {
        let ghost here = all.take(i + 1);
        let ghost before = all.take(i as int);
        assert(here.drop_last() =~= before);
        let slug = slugify(needs[i].as_str());
        let found = find_dependency(entries, slug.as_str(), trusted);
        proof {
            let now = dependency(entries@, slug_of(here.last()), trusted) is Some;
            assert(any_dependency(entries@, here, trusted) == (any_dependency(
                entries@,
                before,
                trusted,
            ) || now)) by {
                if any_dependency(entries@, before, trusted) {
                    let k = choose|k: int|
                        0 <= k < before.len() && dependency(
                            entries@,
                            slug_of(#[trigger] before[k]),
                            trusted,
                        ) is Some;
                    assert(here[k] == before[k]);
                }
                if now {
                    assert(here[i as int] == here.last());
                }
                if any_dependency(entries@, here, trusted) {
                    let k = choose|k: int|
                        0 <= k < here.len() && dependency(
                            entries@,
                            slug_of(#[trigger] here[k]),
                            trusted,
                        ) is Some;
                    if k < i {
                        assert(before[k] == here[k]);
                    }
                }
            }
        }
        if let Some(entry) = found {
            hit = true;
            let content = trim(entry.content.as_str());
            let text = crate::text::cat7(
                "## [",
                entry.kind.dir_name(),
                "] ",
                entry.description.as_str(),
                "\n",
                content.as_str(),
                "\n\n",
            );
            body.append(text.as_str());
        }
        i = i + 1;
    }
    assert(all.take(i as int) =~= all);
    if hit {
        cat3("\n<knowledge-deps>\n", body.as_str(), "</knowledge-deps>\n")
    } else {
        String::new()
    }
}

/// The entries that are not the project's.
pub open spec fn personal_of(entries: Seq<Entry>) -> Seq<Entry>
    decreases entries.len(),
{
    if entries.len() == 0 {
        Seq::empty()
    } else {
        let rest = personal_of(entries.subrange(1, entries.len() as int));
        if entries[0].scope == Scope::Project {
            rest
        } else {
            seq![entries[0]] + rest
        }
    }
}

proof fn lemma_dependency_is_personal(entries: Seq<Entry>, slug: Seq<char>)
    ensures
        dependency(entries, slug, false) == dependency(personal_of(entries), slug, false),
    decreases entries.len(),
{
    if entries.len() > 0 {
        let tail = entries.subrange(1, entries.len() as int);
        lemma_dependency_is_personal(tail, slug);
        let kept = personal_of(tail);
        let with = seq![entries[0]] + kept;
        assert(with.subrange(1, with.len() as int) =~= kept);
    }
}

proof fn lemma_texts_are_personal(entries: Seq<Entry>, needs: Seq<Seq<char>>)
    ensures
        dependency_texts(entries, needs, false) == dependency_texts(
            personal_of(entries),
            needs,
            false,
        ),
    decreases needs.len(),
{
    if needs.len() > 0 {
        lemma_texts_are_personal(entries, needs.drop_last());
        lemma_dependency_is_personal(entries, slug_of(needs.last()));
    }
}

/// Nothing of an untrusted project is loaded: the block is what it would be
/// without the project's entries.
pub proof fn law_untrusted_projects_are_not_loaded(entries: Seq<Entry>, needs: Seq<Seq<char>>)
    ensures
        needs_block(entries, needs, false) == needs_block(personal_of(entries), needs, false),
{
    lemma_texts_are_personal(entries, needs);
    assert forall|i: int| 0 <= i < needs.len() implies dependency(
        entries,
        slug_of(#[trigger] needs[i]),
        false,
    ) == dependency(personal_of(entries), slug_of(needs[i]), false) by {
        lemma_dependency_is_personal(entries, slug_of(needs[i]));
    }
    assert(any_dependency(entries, needs, false) == any_dependency(
        personal_of(entries),
        needs,
        false,
    )) by {
        if any_dependency(entries, needs, false) {
            let i = choose|i: int|
                0 <= i < needs.len() && dependency(entries, slug_of(#[trigger] needs[i]), false) is Some;
            assert(dependency(personal_of(entries), slug_of(needs[i]), false) is Some);
        }
        if any_dependency(personal_of(entries), needs, false) {
            let i = choose|i: int|
                0 <= i < needs.len() && dependency(
                    personal_of(entries),
                    slug_of(#[trigger] needs[i]),
                    false,
                ) is Some;
            assert(dependency(entries, slug_of(needs[i]), false) is Some);
        }
    }
}

proof fn lemma_dependency(entries: Seq<Entry>, slug: Seq<char>, trusted: bool) -> (at: int)
    ensures
        match dependency(entries, slug, trusted) {
            Some(entry) => 0 <= at < entries.len() && entries[at] == entry && loadable(
                entry,
                slug,
                trusted,
            ) && forall|j: int| 0 <= j < at ==> !loadable(#[trigger] entries[j], slug, trusted),
            None => forall|j: int|
                0 <= j < entries.len() ==> !loadable(#[trigger] entries[j], slug, trusted),
        },
    decreases entries.len(),
{
    if entries.len() == 0 {
        0
    } else if loadable(entries[0], slug, trusted) {
        0
    } else {
        let rest = entries.subrange(1, entries.len() as int);
        let at = lemma_dependency(rest, slug, trusted);
        assert forall|j: int| 1 <= j < entries.len() implies #[trigger] entries[j] == rest[j - 1] by {}
        at + 1
    }
}

/// What a need loads is the first entry of its name that is enabled, and that is
/// not a project's where projects are not trusted. It loads nothing only where
/// there is no such entry.
pub proof fn law_first_enabled_entry_is_loaded(entries: Seq<Entry>, slug: Seq<char>, trusted: bool)
    ensures
        match dependency(entries, slug, trusted) {
            Some(entry) => exists|at: int|
                0 <= at < entries.len() && #[trigger] entries[at] == entry && entry.enabled
                    && entry.slug@ == slug && (trusted || entry.scope == Scope::Personal)
                    && forall|j: int|
                    0 <= j < at ==> !((#[trigger] entries[j]).enabled && entries[j].slug@ == slug
                        && (trusted || entries[j].scope == Scope::Personal)),
            None => forall|j: int|
                0 <= j < entries.len() ==> !((#[trigger] entries[j]).enabled && entries[j].slug@
                    == slug && (trusted || entries[j].scope == Scope::Personal)),
        },
{
    let at = lemma_dependency(entries, slug, trusted);
    match dependency(entries, slug, trusted) {
        Some(entry) => {
            assert(entries[at] == entry);
            assert forall|j: int| 0 <= j < at implies !((#[trigger] entries[j]).enabled
                && entries[j].slug@ == slug && (trusted || entries[j].scope == Scope::Personal)) by {
                assert(!loadable(entries[j], slug, trusted));
            }
        },
        None => {
            assert forall|j: int| 0 <= j < entries.len() implies !((#[trigger] entries[j]).enabled
                && entries[j].slug@ == slug && (trusted || entries[j].scope == Scope::Personal)) by {
                assert(!loadable(entries[j], slug, trusted));
            }
        },
    }
}

/// The texts of the entries that are needed stand in the order of the needs, each
/// with its kind, its description and its content without the white space around
/// it.
pub proof fn law_needs_are_told_in_order(
    entries: Seq<Entry>,
    needs: Seq<Seq<char>>,
    need: Seq<char>,
    trusted: bool,
)
    ensures
        ({
            let before = dependency_texts(entries, needs, trusted);
            let after = dependency_texts(entries, needs.push(need), trusted);
            match dependency(entries, slug_of(need), trusted) {
                Some(entry) => after == before + ("## ["@ + entry.kind.dir() + "] "@
                    + entry.description@ + "\n"@ + trimmed(entry.content@) + "\n\n"@),
                None => after == before,
            }
        }),
        any_dependency(entries, needs, trusted) ==> starts(
            needs_block(entries, needs, trusted),
            "\n<knowledge-deps>\n"@ + dependency_texts(entries, needs, trusted),
        ),
        !any_dependency(entries, needs, trusted) ==> needs_block(entries, needs, trusted).len() == 0,
{
    assert(needs.push(need).drop_last() =~= needs);
    let head = "\n<knowledge-deps>\n"@ + dependency_texts(entries, needs, trusted);
    if any_dependency(entries, needs, trusted) {
        let block = needs_block(entries, needs, trusted);
        assert(block.subrange(0, head.len() as int) =~= head);
    }
}

/// A number is padded with zeros in front, to its width and no further.
pub proof fn law_numbers_are_padded(n: nat)
    ensures
        n < 10 ==> padded(n, 2) == seq!['0'] + decimal(n),
        n >= 10 ==> padded(n, 2) == decimal(n),
        n >= 1000 ==> padded(n, 4) == decimal(n),
        100 <= n < 1000 ==> padded(n, 4) == seq!['0'] + decimal(n),
{
    reveal_with_fuel(padded, 4);
    reveal_with_fuel(pow10, 5);
    assert(pow10(1) == 10 && pow10(2) == 100 && pow10(3) == 1000);
}

proof fn lemma_numeral_front(text: Seq<char>)
    ensures
        numeral(seq!['0'] + text) == numeral(text),
    decreases text.len(),
{
    let whole = seq!['0'] + text;
    if text.len() == 0 {
        reveal_with_fuel(numeral, 2);
        assert(whole.drop_last() =~= Seq::<char>::empty());
    } else {
        lemma_numeral_front(text.drop_last());
        assert(whole.drop_last() =~= seq!['0'] + text.drop_last());
        assert(whole.last() == text.last());
    }
}

proof fn lemma_decimal_width(n: nat, width: nat)
    requires
        1 <= width <= 4,
        n < pow10(width),
    ensures
        padded(n, width).len() == width,
        numeral(padded(n, width)) == n,
    decreases width,
{
    reveal_with_fuel(pow10, 5);
    reveal_with_fuel(decimal, 5);
    assert(pow10(1) == 10 && pow10(2) == 100 && pow10(3) == 1000 && pow10(4) == 10000);
    law_digits_say_the_number(n);
    if width > 1 && n < pow10((width - 1) as nat) {
        lemma_decimal_width(n, (width - 1) as nat);
        lemma_numeral_front(padded(n, (width - 1) as nat));
    }
}

/// A day is written as four digits for the year, two for the month and two for the
/// day, in this order and with a hyphen between them.
pub proof fn law_days_are_written(year: nat, month: nat, day: nat)
    requires
        year < 10000,
        month < 100,
        day < 100,
    ensures
        ({
            let text = date_text(year as int, month, day);
            &&& text.len() == 10
            &&& numeral(text.subrange(0, 4)) == year
            &&& text[4] == '-'
            &&& numeral(text.subrange(5, 7)) == month
            &&& text[7] == '-'
            &&& numeral(text.subrange(8, 10)) == day
        }),
{
    reveal_strlit("-");
    reveal_with_fuel(pow10, 5);
    assert(pow10(2) == 100 && pow10(4) == 10000);
    lemma_decimal_width(year, 4);
    lemma_decimal_width(month, 2);
    lemma_decimal_width(day, 2);
    let text = date_text(year as int, month, day);
    assert(text.subrange(0, 4) =~= padded(year, 4));
    assert(text.subrange(5, 7) =~= padded(month, 2));
    assert(text.subrange(8, 10) =~= padded(day, 2));
}

} // verus!
