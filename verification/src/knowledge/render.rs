//! The knowledge that goes into a prompt: rules in full, notes in part, and the
//! rest by name.

use crate::knowledge::store::paths::{
    components, depth, depth_of, is_absolute, law_path_down_to_a_part, name_in, same_path, split_name, starts_at_root,
    strip_base, stripped, take_down_to, text_down_to,
};
use crate::knowledge::{Entry, Kind, Scope};
use crate::text::{
    cat3, cat4, cat5, cat7, chars_of, ends, first_chars, occurs, occurs_at, starts, str_eq, take_chars, trim, trimmed,
    views,
};
use vstd::prelude::*;
use vstd::string::*;

pub mod mention;

verus! {

pub const NOTE_BODY_CAP: usize = 500;

pub const SKILL_DESC_CAP: usize = 250;

#[verifier::external_type_specification]
#[verifier::external_body]
pub struct ExGlob(globset::Glob);

#[verifier::external_type_specification]
#[verifier::external_body]
pub struct ExGlobSetBuilder(globset::GlobSetBuilder);

#[verifier::external_type_specification]
#[verifier::external_body]
pub struct ExGlobSet(globset::GlobSet);

/// An automaton of this many states fits into the memory of every machine.
pub const STATE_LIMIT: usize = 0x20_0000;

/// The automaton of a set has fewer entries than this in each of its lists.
pub const ENTRY_LIMIT: usize = 0x7fff_fffe;

/// A pattern is read by a function that calls itself for what stands in braces.
pub const BRACE_LIMIT: usize = 1000;

/// The text of a pattern.
pub uninterp spec fn glob_text(glob: globset::Glob) -> Seq<char>;

/// The patterns in a builder.
pub uninterp spec fn builder_globs(builder: globset::GlobSetBuilder) -> Seq<Seq<char>>;

/// The patterns in a set.
pub uninterp spec fn set_globs(set: globset::GlobSet) -> Seq<Seq<char>>;

/// A character that stands for itself where no brace is open, and separates
/// nothing.
pub open spec fn is_plain(c: char) -> bool {
    !(c == '*' || c == '?' || c == '[' || c == '{' || c == '}' || c == '\\' || c == '/')
}

/// Plain characters and slashes.
pub open spec fn is_text(text: Seq<char>) -> bool {
    forall|i: int| 0 <= i < text.len() ==> is_plain(#[trigger] text[i]) || text[i] == '/'
}

/// A path, written out.
pub open spec fn is_whole(pattern: Seq<char>) -> bool {
    pattern.len() > 0 && is_text(pattern)
}

/// `q*`.
pub open spec fn is_prefix(pattern: Seq<char>) -> bool {
    pattern.len() > 1 && pattern.last() == '*' && is_text(pattern.drop_last())
}

/// `q/**`.
pub open spec fn is_under(pattern: Seq<char>) -> bool {
    let n = pattern.len() as int;
    n > 2 && pattern[n - 3] == '/' && pattern[n - 2] == '*' && pattern[n - 1] == '*' && is_text(
        pattern.take(n - 2),
    )
}

/// The end of a path; a slash alone and a dot alone have rules of their own.
pub open spec fn is_tail(text: Seq<char>) -> bool {
    text.len() > 0 && is_text(text) && text != seq!['/'] && text != seq!['.']
}

/// `*s`, as in `*.md`.
pub open spec fn is_suffix(pattern: Seq<char>) -> bool {
    pattern.len() > 1 && pattern[0] == '*' && is_tail(pattern.skip(1))
}

/// `**/*s`, as in `**/*.md`.
pub open spec fn is_deep(pattern: Seq<char>) -> bool {
    pattern.len() > 4 && pattern.take(4) == seq!['*', '*', '/', '*'] && is_tail(pattern.skip(4))
}

/// `**/q`, where `q` is not the parent directory.
pub open spec fn is_anywhere(pattern: Seq<char>) -> bool {
    pattern.len() > 3 && pattern.take(3) == seq!['*', '*', '/'] && is_text(pattern.skip(3))
        && pattern.skip(3) != seq!['.', '.']
}

/// The patterns that say what a path is, what it begins with, or what it ends
/// in.
pub open spec fn is_direct(pattern: Seq<char>) -> bool {
    ||| is_whole(pattern)
    ||| is_prefix(pattern)
    ||| is_under(pattern)
    ||| is_suffix(pattern)
    ||| is_deep(pattern)
    ||| is_anywhere(pattern)
}

/// What a direct pattern matches. A star stands for slashes too, so `src/*` and
/// `src/**` match all that is below `src`, and `*.md` what ends in `.md`, in
/// whatever directory.
pub open spec fn direct_match(pattern: Seq<char>, path: Seq<char>) -> bool {
    if is_whole(pattern) {
        path == pattern
    } else if is_prefix(pattern) {
        starts(path, pattern.drop_last())
    } else if is_under(pattern) {
        starts(path, pattern.take(pattern.len() - 2))
    } else if is_suffix(pattern) {
        ends(path, pattern.skip(1))
    } else if is_deep(pattern) {
        ends(path, pattern.skip(4))
    } else {
        path == pattern.skip(3) || ends(path, pattern.skip(2))
    }
}

pub open spec fn all_direct(patterns: Seq<Seq<char>>) -> bool {
    forall|i: int| 0 <= i < patterns.len() ==> is_direct(#[trigger] patterns[i])
}

/// A direct pattern without a slash. It matches alike wherever a backslash
/// stands in the path.
pub open spec fn is_simple(pattern: Seq<char>) -> bool {
    (is_whole(pattern) || is_prefix(pattern) || is_suffix(pattern)) && forall|i: int|
        0 <= i < pattern.len() ==> #[trigger] pattern[i] != '/'
}

pub open spec fn all_simple(patterns: Seq<Seq<char>>) -> bool {
    forall|i: int| 0 <= i < patterns.len() ==> is_simple(#[trigger] patterns[i])
}

/// A text that is read in the same way on every platform: a backslash escapes on
/// some, and separates on others.
pub open spec fn is_portable(text: Seq<char>) -> bool {
    forall|i: int| 0 <= i < text.len() ==> #[trigger] text[i] != '\\'
}

pub open spec fn all_portable(texts: Seq<Seq<char>>) -> bool {
    forall|i: int| 0 <= i < texts.len() ==> is_portable(#[trigger] texts[i])
}

/// Whether `globset` takes a text for a pattern.
pub uninterp spec fn glob_valid(pattern: Seq<char>) -> bool;

/// Whether `globset` has a pattern match a path.
pub uninterp spec fn glob_match(pattern: Seq<char>, path: Seq<char>) -> bool;

pub open spec fn is_pattern(text: Seq<char>) -> bool {
    is_direct(text) || glob_valid(text)
}

pub open spec fn pattern_match(pattern: Seq<char>, path: Seq<char>) -> bool {
    if is_direct(pattern) {
        direct_match(pattern, path)
    } else {
        glob_match(pattern, path)
    }
}

/// The texts that are patterns; the others count for nothing.
pub open spec fn kept(texts: Seq<Seq<char>>) -> Seq<Seq<char>> {
    texts.filter(|text: Seq<char>| is_pattern(text))
}

pub open spec fn some_match(patterns: Seq<Seq<char>>, path: Seq<char>) -> bool {
    exists|i: int| 0 <= i < patterns.len() && pattern_match(#[trigger] patterns[i], path)
}

pub open spec fn total_len(texts: Seq<Seq<char>>) -> int
    decreases texts.len(),
{
    if texts.len() == 0 {
        0
    } else {
        total_len(texts.drop_last()) + texts.last().len()
    }
}

/// How many braces are opened.
pub open spec fn braces(text: Seq<char>) -> int
    decreases text.len(),
{
    if text.len() == 0 {
        0
    } else {
        braces(text.drop_last()) + (if text.last() == '{' {
            1int
        } else {
            0
        })
    }
}

/// More than the states of an automaton for these patterns: a character has at
/// most four bytes, and there are a few states beside those of the bytes.
pub open spec fn states(patterns: Seq<Seq<char>>) -> int {
    4 * total_len(patterns) + 1024
}

/// Patterns that can be put together without a list that grows too long: each
/// state of the automaton holds at most every pattern.
pub open spec fn are_bounded(patterns: Seq<Seq<char>>) -> bool {
    &&& states(patterns) <= STATE_LIMIT
    &&& patterns.len() * states(patterns) < ENTRY_LIMIT
}

/// Patterns that can be read and put together.
pub open spec fn fits(patterns: Seq<Seq<char>>) -> bool {
    &&& are_bounded(patterns)
    &&& forall|i: int| 0 <= i < patterns.len() ==> braces(#[trigger] patterns[i]) <= BRACE_LIMIT
}

/// `globset::Glob::new`: the pattern, if the text is one. A direct one is.
/// Nothing is said of a text with a backslash, whose meaning is up to the
/// platform. What stands in braces is read by recursion, so these are bounded.
#[verifier::external_body]
fn parse_glob(pattern: &str) -> (r: Option<globset::Glob>)
    requires
        braces(pattern@) <= BRACE_LIMIT,
    ensures
        r matches Some(glob) ==> glob_text(glob) == pattern@,
        is_direct(pattern@) ==> r is Some,
        is_portable(pattern@) && !is_direct(pattern@) ==> (r is Some <==> glob_valid(pattern@)),
{
    globset::Glob::new(pattern).ok()
}

/// `globset::GlobSetBuilder::new`: a builder without patterns.
#[verifier::external_body]
fn new_builder() -> (r: globset::GlobSetBuilder)
    ensures
        builder_globs(r) == Seq::<Seq<char>>::empty(),
{
    globset::GlobSetBuilder::new()
}

/// `globset::GlobSetBuilder::add`: one more pattern.
#[verifier::external_body]
fn add_glob(builder: &mut globset::GlobSetBuilder, glob: globset::Glob)
    ensures
        builder_globs(*final(builder)) == builder_globs(*old(builder)).push(glob_text(glob)),
{
    builder.add(glob);
}

/// `globset::GlobSetBuilder::build`: the set of the builder's patterns, if it
/// could be made. One of direct patterns can, since these are looked up or go
/// into an automaton of literals; for others, which become regular expressions,
/// it is up to the machine how large one may get. It gives up with a panic where
/// the states of the automaton of literals, or the patterns that these hold,
/// cannot be counted, so the patterns are bounded.
#[verifier::external_body]
fn build_set(builder: &globset::GlobSetBuilder) -> (r: Option<globset::GlobSet>)
    requires
        are_bounded(builder_globs(*builder)),
    ensures
        r matches Some(set) ==> set_globs(set) == builder_globs(*builder),
        all_direct(builder_globs(*builder)) ==> r is Some,
{
    builder.build().ok()
}

/// `globset::GlobSet::is_match`: whether one of the patterns matches; direct ones
/// match as they say. Nothing is said where a backslash stands in the path, or in
/// a pattern, except that simple patterns match any path as they say.
#[verifier::external_body]
fn set_matches(set: &globset::GlobSet, path: &str) -> (r: bool)
    ensures
        all_simple(set_globs(*set)) || (all_portable(set_globs(*set)) && is_portable(path@)) ==> r == (
        exists|i: int|
            0 <= i < set_globs(*set).len() && (if is_direct(set_globs(*set)[i]) {
                direct_match(set_globs(*set)[i], path@)
            } else {
                glob_match(#[trigger] set_globs(*set)[i], path@)
            })),
{
    set.is_match(path)
}

proof fn lemma_total_len(texts: Seq<Seq<char>>)
    ensures
        total_len(texts) >= 0,
    decreases texts.len(),
{
    if texts.len() > 0 {
        lemma_total_len(texts.drop_last());
    }
}

proof fn lemma_total_len_part(texts: Seq<Seq<char>>, n: int)
    requires
        0 <= n <= texts.len(),
    ensures
        total_len(texts.take(n)) <= total_len(texts),
    decreases texts.len(),
{
    if n == texts.len() {
        assert(texts.take(n) =~= texts);
    } else {
        lemma_total_len_part(texts.drop_last(), n);
        assert(texts.drop_last().take(n) =~= texts.take(n));
    }
}

/// Fewer and shorter patterns are bounded where these are.
proof fn lemma_bounded(some: Seq<Seq<char>>, all: Seq<Seq<char>>)
    requires
        are_bounded(all),
        some.len() <= all.len(),
        total_len(some) <= total_len(all),
    ensures
        are_bounded(some),
{
    lemma_total_len(some);
    assert(some.len() * states(some) <= all.len() * states(all)) by (nonlinear_arith)
        requires
            0 <= some.len() <= all.len(),
            0 <= states(some) <= states(all),
    ;
}

/// A direct pattern is portable, and so is a simple one, which is direct.
proof fn lemma_direct_is_portable(pattern: Seq<char>)
    ensures
        is_simple(pattern) ==> is_direct(pattern),
        is_direct(pattern) ==> is_portable(pattern),
{
    if is_direct(pattern) {
        assert forall|i: int| 0 <= i < pattern.len() implies #[trigger] pattern[i] != '\\' by {
            let n = pattern.len() as int;
            if is_whole(pattern) {
            } else if is_prefix(pattern) {
                assert(i < n - 1 ==> pattern.drop_last()[i] == pattern[i]);
            } else if is_under(pattern) {
                assert(i < n - 2 ==> pattern.take(n - 2)[i] == pattern[i]);
            } else if is_suffix(pattern) {
                assert(i > 0 ==> pattern.skip(1)[i - 1] == pattern[i]);
            } else if is_deep(pattern) {
                assert(i < 4 ==> pattern.take(4)[i] == pattern[i]);
                assert(i >= 4 ==> pattern.skip(4)[i - 4] == pattern[i]);
            } else {
                assert(i < 3 ==> pattern.take(3)[i] == pattern[i]);
                assert(i >= 3 ==> pattern.skip(3)[i - 3] == pattern[i]);
            }
        }
    }
}

/// Of direct patterns all are kept.
proof fn lemma_direct_are_kept(patterns: Seq<Seq<char>>)
    requires
        all_direct(patterns),
    ensures
        kept(patterns) == patterns,
        all_portable(patterns),
    decreases patterns.len(),
{
    reveal(Seq::filter);
    assert forall|i: int| 0 <= i < patterns.len() implies is_portable(#[trigger] patterns[i]) by {
        lemma_direct_is_portable(patterns[i]);
    }
    if patterns.len() > 0 {
        assert forall|i: int| 0 <= i < patterns.len() - 1 implies is_direct(
            #[trigger] patterns.drop_last()[i],
        ) by {
            assert(is_direct(patterns[i]));
        }
        assert(is_direct(patterns.last()));
        lemma_direct_are_kept(patterns.drop_last());
        assert(patterns.drop_last().push(patterns.last()) =~= patterns);
    }
}

proof fn lemma_simple_are_direct(patterns: Seq<Seq<char>>)
    requires
        all_simple(patterns),
    ensures
        all_direct(patterns),
{
    assert forall|i: int| 0 <= i < patterns.len() implies is_direct(#[trigger] patterns[i]) by {
        assert(is_simple(patterns[i]));
    }
}

fn count_braces(text: &Vec<char>) -> (r: usize)
    ensures
        r == braces(text@),
{
    let mut count: usize = 0;
    let mut i: usize = 0;
    assert(text@.take(0) =~= Seq::<char>::empty());
    while i < text.len()
        invariant
            i <= text@.len(),
            count == braces(text@.take(i as int)),
            count <= i,
        decreases text@.len() - i,
    {
        assert(text@.take(i + 1).drop_last() =~= text@.take(i as int));
        if text[i] == '{' {
            count = count + 1;
        }
        i = i + 1;
    }
    assert(text@.take(i as int) =~= text@);
    count
}

/// Whether the patterns can be read and put together.
pub fn is_within_limits(patterns: &Vec<String>) -> (r: bool)
    ensures
        r == fits(views(patterns@)),
{
    let ghost all = views(patterns@);
    let mut total: usize = 0;
    let mut i: usize = 0;
    assert(all.take(0) =~= Seq::<Seq<char>>::empty());
    while i < patterns.len()
        invariant
            i <= patterns@.len(),
            all == views(patterns@),
            total == total_len(all.take(i as int)),
            total <= STATE_LIMIT,
            forall|k: int| 0 <= k < i ==> braces(#[trigger] all[k]) <= BRACE_LIMIT,
        decreases patterns@.len() - i,
    {
        let text = chars_of(patterns[i].as_str());
        proof {
            assert(all.take(i + 1).drop_last() =~= all.take(i as int));
            assert(all[i as int] == text@);
            lemma_total_len_part(all, i + 1);
        }
        if count_braces(&text) > BRACE_LIMIT {
            return false;
        }
        if text.len() > STATE_LIMIT - total {
            return false;
        }
        total = total + text.len();
        i = i + 1;
    }
    assert(all.take(i as int) =~= all);
    let size: u128 = 4 * (total as u128) + 1024;
    let count: u128 = patterns.len() as u128;
    if size > STATE_LIMIT as u128 {
        return false;
    }
    assert(count * size <= u64::MAX * STATE_LIMIT) by (nonlinear_arith)
        requires
            0 <= count <= u64::MAX,
            0 <= size <= STATE_LIMIT,
    ;
    count * size < ENTRY_LIMIT as u128
}

/// The patterns among the texts, put together, if that could be done.
pub fn compile(patterns: &Vec<String>) -> (r: Option<globset::GlobSet>)
    requires
        fits(views(patterns@)),
    ensures
        all_direct(views(patterns@)) ==> r is Some && set_globs(r->0) == views(patterns@),
        all_portable(views(patterns@)) && all_direct(kept(views(patterns@))) ==> r is Some,
        all_portable(views(patterns@)) && r is Some ==> set_globs(r->0) == kept(views(patterns@)),
{
    let mut builder = new_builder();
    let ghost all = views(patterns@);
    let mut i: usize = 0;
    assert(all.take(0) =~= Seq::<Seq<char>>::empty());
    proof {
        reveal(Seq::filter);
    }
    while i < patterns.len()
        invariant
            i <= patterns@.len(),
            all == views(patterns@),
            fits(all),
            builder_globs(builder).len() <= i,
            all_portable(all) ==> builder_globs(builder) == kept(all.take(i as int)),
            total_len(builder_globs(builder)) <= total_len(all.take(i as int)),
        decreases patterns@.len() - i,
    {
        proof {
            reveal(Seq::filter);
            assert(all.take(i + 1).drop_last() =~= all.take(i as int));
            assert(all.take(i + 1) =~= all.take(i as int).push(all[i as int]));
            assert(braces(all[i as int]) <= BRACE_LIMIT);
        }
        if let Some(glob) = parse_glob(patterns[i].as_str()) {
            let ghost before = builder_globs(builder);
            add_glob(&mut builder, glob);
            assert(builder_globs(builder).drop_last() =~= before);
        }
        i = i + 1;
    }
    assert(all.take(i as int) =~= all);
    proof {
        lemma_bounded(builder_globs(builder), all);
        if all_direct(all) {
            lemma_direct_are_kept(all);
        }
    }
    build_set(&builder)
}

/// Whether a set has a match among the paths.
pub open spec fn set_hits(set: Option<globset::GlobSet>, paths: Seq<Seq<char>>) -> bool {
    set is Some && some_hit(set_globs(set->0), paths)
}

/// A set whose verdict on the paths is the same everywhere.
pub open spec fn is_decided(patterns: Seq<Seq<char>>, paths: Seq<Seq<char>>) -> bool {
    all_simple(patterns) || (all_portable(patterns) && all_portable(paths))
}

/// Whether one of the paths matches a pattern of the set. Without a set, none
/// does.
pub fn hits(set: &Option<globset::GlobSet>, paths: &Vec<String>) -> (r: bool)
    ensures
        set is None ==> !r,
        paths@.len() == 0 ==> !r,
        set is Some && is_decided(set_globs(set->0), views(paths@)) ==> r == set_hits(
            *set,
            views(paths@),
        ),
{
    let built = match set {
        Some(built) => built,
        None => return false,
    };
    let ghost targets = views(paths@);
    let ghost globs = set_globs(*built);
    let mut j: usize = 0;
    while j < paths.len()
        invariant
            j <= paths@.len(),
            targets == views(paths@),
            set is Some && set->0 == *built,
            globs == set_globs(*built),
            is_decided(globs, targets) ==> forall|k: int|
                0 <= k < j ==> !some_match(globs, #[trigger] targets[k]),
        decreases paths@.len() - j,
    {
        let hit = set_matches(built, paths[j].as_str());
        proof {
            assert(targets[j as int] == paths@[j as int]@);
            if hit && is_decided(globs, targets) {
                let i = choose|i: int|
                    0 <= i < globs.len() && pattern_match(#[trigger] globs[i], targets[j as int]);
                assert(some_match(globs, targets[j as int]));
            }
        }
        if hit {
            return true;
        }
        j = j + 1;
    }
    false
}

/// Whether one of the paths matches one of the patterns.
pub open spec fn some_hit(patterns: Seq<Seq<char>>, paths: Seq<Seq<char>>) -> bool {
    exists|k: int| 0 <= k < paths.len() && some_match(patterns, #[trigger] paths[k])
}

/// What holds of a verdict on patterns and paths. Where each text is a direct
/// pattern, or no pattern at all, it says whether there is a match. In any case a
/// match that it tells of is one; that it tells of none may also mean that the
/// patterns could not be put together, which is up to the machine where one of
/// them is not direct.
pub open spec fn verdict_holds(patterns: Seq<Seq<char>>, paths: Seq<Seq<char>>, hit: bool) -> bool {
    &&& paths.len() == 0 ==> !hit
    &&& all_simple(patterns) ==> hit == some_hit(patterns, paths)
    &&& all_direct(patterns) && all_portable(paths) ==> hit == some_hit(patterns, paths)
    &&& all_portable(patterns) && all_portable(paths) && all_direct(kept(patterns)) ==> hit
        == some_hit(kept(patterns), paths)
    &&& all_portable(patterns) && all_portable(paths) && hit ==> some_hit(kept(patterns), paths)
}

/// Whether one of the paths matches one of the patterns. A text that is no
/// pattern counts for nothing.
pub fn globs_hit(patterns: &Vec<String>, paths: &Vec<String>) -> (r: bool)
    requires
        fits(views(patterns@)),
    ensures
        verdict_holds(views(patterns@), views(paths@), r),
{
    let set = compile(patterns);
    proof {
        lemma_kept_portable(views(patterns@));
        if all_simple(views(patterns@)) {
            lemma_simple_are_direct(views(patterns@));
        }
        if all_direct(views(patterns@)) {
            lemma_direct_are_kept(views(patterns@));
        }
    }
    hits(&set, paths)
}

proof fn lemma_kept_portable(texts: Seq<Seq<char>>)
    ensures
        all_portable(texts) ==> all_portable(kept(texts)),
    decreases texts.len(),
{
    reveal(Seq::filter);
    if texts.len() > 0 && all_portable(texts) {
        assert(is_portable(texts.last()));
        assert forall|i: int| 0 <= i < texts.len() - 1 implies is_portable(
            #[trigger] texts.drop_last()[i],
        ) by {
            assert(is_portable(texts[i]));
        }
        lemma_kept_portable(texts.drop_last());
    }
}

/// For each entry, whether one of the paths matches its patterns.
pub fn glob_hits(entries: &Vec<Entry>, paths: &Vec<String>) -> (r: Vec<bool>)
    requires
        forall|i: int|
            0 <= i < entries@.len() ==> fits(views((#[trigger] entries@[i]).globs@)),
    ensures
        r@.len() == entries@.len(),
        forall|i: int|
            0 <= i < r@.len() ==> verdict_holds(
                views(entries@[i].globs@),
                views(paths@),
                #[trigger] r@[i],
            ),
{
    let mut out: Vec<bool> = Vec::new();
    let mut i: usize = 0;
    while i < entries.len()
        invariant
            i <= entries@.len(),
            out@.len() == i,
            forall|k: int|
                0 <= k < entries@.len() ==> fits(views((#[trigger] entries@[k]).globs@)),
            forall|k: int|
                0 <= k < i ==> verdict_holds(
                    views(entries@[k].globs@),
                    views(paths@),
                    #[trigger] out@[k],
                ),
        decreases entries@.len() - i,
    {
        out.push(globs_hit(&entries[i].globs, paths));
        i = i + 1;
    }
    out
}

/// A path as it is shown: below the base directory, or in full.
pub open spec fn label_of(base: Seq<char>, path: Seq<char>) -> Seq<char> {
    match relative_to(base, path) {
        Some(rel) => rel,
        None => path,
    }
}

/// A path below a directory, as it is written.
pub open spec fn relative_to(base: Seq<char>, path: Seq<char>) -> Option<Seq<char>> {
    stripped(path, base)
}

pub fn relative(base: &str, path: &str) -> (r: Option<String>)
    ensures
        crate::text::opt_view(r) == relative_to(base@, path@),
{
    strip_base(path, base)
}

fn rel_label(base: &str, path: &str) -> (r: String)
    ensures
        r@ == label_of(base@, path@),
{
    match relative(base, path) {
        Some(rel) => rel,
        None => path.to_owned(),
    }
}

/// A path that leads to a file of this name.
pub open spec fn is_named(path: Seq<char>, name: Seq<char>) -> bool {
    name_in(components(path)) == Some(name)
}

/// Where an entry goes.
#[derive(Debug, Clone, Copy, PartialEq, Eq, Structural)]
pub enum Place {
    /// An untrusted project's: it is named, and nothing of it is shown.
    Gated,
    /// The index of a directory, in full.
    Curated,
    /// A rule that applies, in full.
    Rule,
    /// By its name and description.
    Index,
    Note,
    Skill,
}

/// A rule applies always, as an `AGENTS.md`, without patterns, or where one of
/// its patterns matches.
pub open spec fn applies(entry: Entry, hit: bool) -> bool {
    entry.always_apply || entry.is_agents_md || entry.globs@.len() == 0 || hit
}

pub open spec fn place_of(entry: Entry, trusted: bool, hit: bool) -> Place {
    if entry.scope == Scope::Project && !trusted {
        Place::Gated
    } else if is_named(entry.path@, "index.md"@) {
        Place::Curated
    } else {
        match entry.kind {
            Kind::Rule => if applies(entry, hit) {
                Place::Rule
            } else {
                Place::Index
            },
            Kind::Note | Kind::Memory => Place::Note,
            Kind::Skill => Place::Skill,
            Kind::Reference | Kind::History | Kind::Command => Place::Index,
        }
    }
}

pub fn place(entry: &Entry, trusted: bool, hit: bool) -> (r: Place)
    ensures
        r == place_of(*entry, trusted, hit),
{
    if entry.scope == Scope::Project && !trusted {
        return Place::Gated;
    }
    if let Some((_, name)) = split_name(entry.path.as_str()) {
        if str_eq(name.as_str(), "index.md") {
            return Place::Curated;
        }
    }
    match entry.kind {
        Kind::Rule => if entry.always_apply || entry.is_agents_md || entry.globs.len() == 0 || hit {
            Place::Rule
        } else {
            Place::Index
        },
        Kind::Note | Kind::Memory => Place::Note,
        Kind::Skill => Place::Skill,
        Kind::Reference | Kind::History | Kind::Command => Place::Index,
    }
}

/// The parts of the text that do not depend on a ranking.
#[verifier::ext_equal]
pub struct Sections {
    pub rules: Seq<char>,
    pub curated: Seq<char>,
    pub index: Seq<char>,
    pub skills: Seq<char>,
}

pub open spec fn full_text(base: Seq<char>, entry: Entry) -> Seq<char> {
    "\n#### "@ + label_of(base, entry.path@) + "\n"@ + trimmed(entry.content@) + "\n"@
}

pub open spec fn index_line(base: Seq<char>, entry: Entry) -> Seq<char> {
    "- "@ + label_of(base, entry.path@) + " — "@ + entry.description@ + "\n"@
}

pub open spec fn gated_line(base: Seq<char>, entry: Entry) -> Seq<char> {
    "- "@ + label_of(base, entry.path@) + " — "@ + entry.description@
        + "（未信任项目，信任后注入）\n"@
}

pub open spec fn skill_line(entry: Entry) -> Seq<char> {
    let plain = "\n- "@ + entry.slug@ + ": "@ + first_chars(
        entry.description@,
        SKILL_DESC_CAP as int,
    );
    match entry.when_to_use {
        Some(when) => plain + (" (use when: "@ + when@ + ")"@),
        None => plain,
    }
}

impl Sections {
    pub open spec fn with(self, base: Seq<char>, entry: Entry, trusted: bool, hit: bool) -> Sections {
        match place_of(entry, trusted, hit) {
            Place::Gated => Sections { index: self.index + gated_line(base, entry), ..self },
            Place::Curated => Sections { curated: self.curated + full_text(base, entry), ..self },
            Place::Rule => Sections { rules: self.rules + full_text(base, entry), ..self },
            Place::Index => Sections { index: self.index + index_line(base, entry), ..self },
            Place::Note => self,
            Place::Skill => Sections { skills: self.skills + skill_line(entry), ..self },
        }
    }
}

pub open spec fn sections_of(base: Seq<char>, entries: Seq<Entry>, trusted: bool, hits: Seq<bool>) -> Sections
    decreases entries.len(),
{
    if entries.len() == 0 {
        Sections {
            rules: Seq::empty(),
            curated: Seq::empty(),
            index: Seq::empty(),
            skills: Seq::empty(),
        }
    } else {
        sections_of(base, entries.drop_last(), trusted, hits).with(
            base,
            entries.last(),
            trusted,
            hits[entries.len() - 1],
        )
    }
}

/// A note, cut to its first characters.
pub open spec fn note_text(entry: Entry) -> Seq<char> {
    "\n#### ["@ + (match entry.note_type {
        Some(t) => t@,
        None => "note"@,
    }) + "] "@ + entry.description@ + " ("@ + entry.scope.name() + ")\n"@ + first_chars(
        entry.content@,
        NOTE_BODY_CAP as int,
    ) + "\n"@
}

/// The notes that were selected, one after the other.
pub open spec fn notes_of(entries: Seq<Entry>, selected: Seq<usize>) -> Seq<char>
    decreases selected.len(),
{
    if selected.len() == 0 {
        Seq::empty()
    } else {
        notes_of(entries, selected.drop_last()) + note_text(entries[selected.last() as int])
    }
}

/// Whether one of the entries is the project's.
pub open spec fn has_project(entries: Seq<Entry>) -> bool {
    exists|i: int| 0 <= i < entries.len() && (#[trigger] entries[i]).scope == Scope::Project
}

/// The line above the text: the project's tree is named where it holds something.
pub open spec fn heading(project: bool) -> Seq<char> {
    if project {
        "\n\n## Knowledge (.agents/ project + ~/.agents/ personal)\n"@
    } else {
        "\n\n## Knowledge (~/.agents/ personal)\n"@
    }
}

/// The text of the sections and the notes.
pub open spec fn assembled(project: bool, sections: Sections, notes: Seq<char>) -> Seq<char> {
    let head = heading(project);
    let ruled = if sections.rules.len() == 0 {
        head
    } else {
        head + "\n### Rules (always applied)\n"@ + sections.rules
    };
    let noted = ruled + notes;
    let indexed = if sections.curated.len() == 0 && sections.index.len() == 0 {
        noted
    } else {
        noted + "\n### Knowledge index (read these files on demand with the read tool)\n"@
            + sections.curated + sections.index
    };
    if sections.skills.len() == 0 {
        indexed
    } else {
        indexed
            + "\n### Skills (load with the skill tool when the task matches; do not reload with identical args)\n"@
            + sections.skills + "\n"@
    }
}

/// The whole text; nothing without entries.
pub open spec fn rendered(
    base: Seq<char>,
    entries: Seq<Entry>,
    trusted: bool,
    hits: Seq<bool>,
    selected: Seq<usize>,
) -> Option<Seq<char>> {
    if entries.len() == 0 {
        None
    } else {
        Some(
            assembled(
                has_project(entries),
                sections_of(base, entries, trusted, hits),
                notes_of(entries, selected),
            ),
        )
    }
}

/// The places of the entries that are ranked as notes.
pub open spec fn note_places(entries: Seq<Entry>, trusted: bool, hits: Seq<bool>) -> Seq<usize>
    decreases entries.len(),
{
    if entries.len() == 0 {
        Seq::empty()
    } else {
        let head = note_places(entries.drop_last(), trusted, hits);
        if place_of(entries.last(), trusted, hits[entries.len() - 1]) == Place::Note {
            head.push((entries.len() - 1) as usize)
        } else {
            head
        }
    }
}

/// The places of the entries that are ranked as notes, in order.
pub fn note_candidates(entries: &Vec<Entry>, trusted: bool, hits: &Vec<bool>) -> (r: Vec<usize>)
    requires
        hits@.len() == entries@.len(),
    ensures
        r@ == note_places(entries@, trusted, hits@),
        forall|k: int| 0 <= k < r@.len() ==> #[trigger] r@[k] < entries@.len(),
{
    let mut out: Vec<usize> = Vec::new();
    let mut i: usize = 0;
    assert(entries@.take(0) =~= Seq::<Entry>::empty());
    while i < entries.len()
        invariant
            i <= entries@.len() == hits@.len(),
            out@ == note_places(entries@.take(i as int), trusted, hits@),
            forall|k: int| 0 <= k < out@.len() ==> #[trigger] out@[k] < i,
        decreases entries@.len() - i,
    {
        assert(entries@.take(i + 1).drop_last() =~= entries@.take(i as int));
        if place(&entries[i], trusted, hits[i]) == Place::Note {
            out.push(i);
        }
        i = i + 1;
    }
    assert(entries@.take(i as int) =~= entries@);
    out
}

/// The text of the entries. `hits` says of each whether its patterns match,
/// `selected` are the places of the notes that were chosen, in order.
pub fn render(
    base: &str,
    entries: &Vec<Entry>,
    trusted: bool,
    hits: &Vec<bool>,
    selected: &Vec<usize>,
) -> (r: Option<String>)
    requires
        hits@.len() == entries@.len(),
        forall|k: int| 0 <= k < selected@.len() ==> #[trigger] selected@[k] < entries@.len(),
    ensures
        crate::text::opt_view(r) == rendered(base@, entries@, trusted, hits@, selected@),
{
    if entries.len() == 0 {
        return None;
    }
    let mut rules: String = String::new();
    let mut curated: String = String::new();
    let mut index: String = String::new();
    let mut skills: String = String::new();
    let mut project = false;
    let mut i: usize = 0;
    assert(entries@.take(0) =~= Seq::<Entry>::empty());
    while i < entries.len()
        invariant
            i <= entries@.len() == hits@.len(),
            project == has_project(entries@.take(i as int)),
            sections_of(base@, entries@.take(i as int), trusted, hits@) == (Sections {
                rules: rules@,
                curated: curated@,
                index: index@,
                skills: skills@,
            }),
        decreases entries@.len() - i,
    {
        assert(entries@.take(i + 1).drop_last() =~= entries@.take(i as int));
        let entry = &entries[i];
        let ghost seen = project;
        if entry.scope == Scope::Project {
            project = true;
        }
        proof {
            lemma_has_project(entries@, i as int);
            assert(project == (seen || entries@[i as int].scope == Scope::Project));
        }
        match place(entry, trusted, hits[i]) {
            Place::Gated => {
                let label = rel_label(base, entry.path.as_str());
                let line = cat5(
                    "- ",
                    label.as_str(),
                    " — ",
                    entry.description.as_str(),
                    "（未信任项目，信任后注入）\n",
                );
                index.append(line.as_str());
            },
            Place::Curated => {
                let label = rel_label(base, entry.path.as_str());
                let content = trim(entry.content.as_str());
                let text = cat5("\n#### ", label.as_str(), "\n", content.as_str(), "\n");
                curated.append(text.as_str());
            },
            Place::Rule => {
                let label = rel_label(base, entry.path.as_str());
                let content = trim(entry.content.as_str());
                let text = cat5("\n#### ", label.as_str(), "\n", content.as_str(), "\n");
                rules.append(text.as_str());
            },
            Place::Index => {
                let label = rel_label(base, entry.path.as_str());
                let line = cat5("- ", label.as_str(), " — ", entry.description.as_str(), "\n");
                index.append(line.as_str());
            },
            Place::Note => {},
            Place::Skill => {
                let about = take_chars(entry.description.as_str(), SKILL_DESC_CAP);
                let line = cat4("\n- ", entry.slug.as_str(), ": ", about.as_str());
                let ghost before = skills@;
                skills.append(line.as_str());
                if let Some(when) = &entry.when_to_use {
                    let hint = cat3(" (use when: ", when.as_str(), ")");
                    skills.append(hint.as_str());
                    assert(skills@ =~= before + skill_line(*entry));
                }
            },
        }
        i = i + 1;
    }
    assert(entries@.take(i as int) =~= entries@);
    let mut notes: String = String::new();
    let mut j: usize = 0;
    assert(selected@.take(0) =~= Seq::<usize>::empty());
    while j < selected.len()
        invariant
            j <= selected@.len(),
            forall|k: int| 0 <= k < selected@.len() ==> #[trigger] selected@[k] < entries@.len(),
            notes@ == notes_of(entries@, selected@.take(j as int)),
        decreases selected@.len() - j,
    {
        assert(selected@.take(j + 1).drop_last() =~= selected@.take(j as int));
        let entry = &entries[selected[j]];
        let body = take_chars(entry.content.as_str(), NOTE_BODY_CAP);
        let sub = match &entry.note_type {
            Some(t) => t.as_str(),
            None => "note",
        };
        let head = cat7(
            "\n#### [",
            sub,
            "] ",
            entry.description.as_str(),
            " (",
            entry.scope.as_str(),
            ")\n",
        );
        let text = cat3(head.as_str(), body.as_str(), "\n");
        notes.append(text.as_str());
        j = j + 1;
    }
    assert(selected@.take(j as int) =~= selected@);
    let mut out: String = if project {
        "\n\n## Knowledge (.agents/ project + ~/.agents/ personal)\n".to_owned()
    } else {
        "\n\n## Knowledge (~/.agents/ personal)\n".to_owned()
    };
    if !rules.as_str().is_empty() {
        out.append("\n### Rules (always applied)\n");
        out.append(rules.as_str());
    }
    out.append(notes.as_str());
    if !curated.as_str().is_empty() || !index.as_str().is_empty() {
        out.append("\n### Knowledge index (read these files on demand with the read tool)\n");
        out.append(curated.as_str());
        out.append(index.as_str());
    }
    if !skills.as_str().is_empty() {
        out.append(
            "\n### Skills (load with the skill tool when the task matches; do not reload with identical args)\n",
        );
        out.append(skills.as_str());
        out.append("\n");
    }
    Some(out)
}

proof fn lemma_has_project(entries: Seq<Entry>, i: int)
    requires
        0 <= i < entries.len(),
    ensures
        has_project(entries.take(i + 1)) == (has_project(entries.take(i)) || entries[i].scope
            == Scope::Project),
{
    let now = entries.take(i + 1);
    let before = entries.take(i);
    if has_project(now) {
        let k = choose|k: int| 0 <= k < now.len() && (#[trigger] now[k]).scope == Scope::Project;
        if k < i {
            assert(before[k] == now[k]);
        }
    }
    if has_project(before) {
        let k = choose|k: int|
            0 <= k < before.len() && (#[trigger] before[k]).scope == Scope::Project;
        assert(now[k] == before[k]);
    }
    assert(now[i] == entries[i]);
}

proof fn lemma_gated_content(
    base: Seq<char>,
    entries: Seq<Entry>,
    hits: Seq<bool>,
    i: int,
    other: Entry,
)
    requires
        0 <= i < entries.len(),
        entries[i].scope == Scope::Project,
        other.scope == Scope::Project,
        other.path@ == entries[i].path@,
        other.description@ == entries[i].description@,
    ensures
        sections_of(base, entries, false, hits) == sections_of(
            base,
            entries.update(i, other),
            false,
            hits,
        ),
        note_places(entries, false, hits) == note_places(entries.update(i, other), false, hits),
    decreases entries.len(),
{
    let changed = entries.update(i, other);
    if i < entries.len() - 1 {
        assert(changed.drop_last() =~= entries.drop_last().update(i, other));
        lemma_gated_content(base, entries.drop_last(), hits, i, other);
    } else {
        assert(changed.drop_last() =~= entries.drop_last());
    }
}

proof fn lemma_notes_are_not_gated(entries: Seq<Entry>, hits: Seq<bool>, place: usize)
    requires
        note_places(entries, false, hits).contains(place),
        entries.len() <= usize::MAX,
    ensures
        place < entries.len(),
        entries[place as int].scope != Scope::Project,
    decreases entries.len(),
{
    let list = note_places(entries, false, hits);
    let k = choose|k: int| 0 <= k < list.len() && list[k] == place;
    if entries.len() > 0 {
        let head = note_places(entries.drop_last(), false, hits);
        if k < head.len() {
            assert(head[k] == place);
            lemma_notes_are_not_gated(entries.drop_last(), hits, place);
        }
    }
}

proof fn lemma_notes_same(entries: Seq<Entry>, changed: Seq<Entry>, i: int, selected: Seq<usize>)
    requires
        entries.len() == changed.len(),
        forall|k: int| 0 <= k < entries.len() && k != i ==> #[trigger] entries[k] == changed[k],
        forall|k: int|
            0 <= k < selected.len() ==> #[trigger] selected[k] < entries.len() && selected[k] != i,
    ensures
        notes_of(entries, selected) == notes_of(changed, selected),
    decreases selected.len(),
{
    if selected.len() > 0 {
        assert forall|k: int| 0 <= k < selected.drop_last().len() implies #[trigger] selected.drop_last()[k]
            < entries.len() && selected.drop_last()[k] != i by {
            assert(selected.drop_last()[k] == selected[k]);
        }
        lemma_notes_same(entries, changed, i, selected.drop_last());
        let last = selected[selected.len() - 1];
        assert(entries[last as int] == changed[last as int]);
    }
}

/// Nothing of an untrusted project but the path and the description of its files
/// goes into the prompt: whatever else such an entry holds, the text is the same,
/// and it is no note that could be selected.
pub proof fn law_untrusted_content_is_not_rendered(
    base: Seq<char>,
    entries: Seq<Entry>,
    hits: Seq<bool>,
    selected: Seq<usize>,
    i: int,
    other: Entry,
)
    requires
        entries.len() <= usize::MAX,
        0 <= i < entries.len(),
        entries[i].scope == Scope::Project,
        other.scope == Scope::Project,
        other.path@ == entries[i].path@,
        other.description@ == entries[i].description@,
        forall|k: int|
            0 <= k < selected.len() ==> note_places(entries, false, hits).contains(
                #[trigger] selected[k],
            ),
    ensures
        rendered(base, entries, false, hits, selected) == rendered(
            base,
            entries.update(i, other),
            false,
            hits,
            selected,
        ),
        note_places(entries, false, hits) == note_places(entries.update(i, other), false, hits),
{
    lemma_gated_content(base, entries, hits, i, other);
    assert forall|k: int| 0 <= k < selected.len() implies #[trigger] selected[k] < entries.len()
        && selected[k] != i by {
        lemma_notes_are_not_gated(entries, hits, selected[k]);
    }
    lemma_notes_same(entries, entries.update(i, other), i, selected);
    assert(entries[i].scope == Scope::Project);
    assert(entries.update(i, other)[i].scope == Scope::Project);
}

/// The file is an `AGENTS.md` next to a file at hand: it always applies.
pub fn nearby_rule(entry: Entry, dir: &str) -> (r: Entry)
    ensures
        r == (Entry {
            always_apply: true,
            is_agents_md: true,
            description: r.description,
            ..entry
        }),
        r.description@ == "AGENTS.md ("@ + dir@ + ")"@,
{
    let mut entry = entry;
    entry.always_apply = true;
    entry.is_agents_md = true;
    entry.description = cat3("AGENTS.md (", dir, ")");
    entry
}

/// The directories above a path, the nearest first, as they are written in it.
pub open spec fn ancestors(path: Seq<char>) -> Seq<Seq<char>> {
    let count = if is_absolute(path) {
        depth(path) as int
    } else {
        depth(path) - 1
    };
    Seq::new(
        (if count > 0 {
            count
        } else {
            0
        }) as nat,
        |i: int| text_down_to(path, depth(path) - 1 - i),
    )
}

pub open spec fn all_ancestors(paths: Seq<Seq<char>>) -> Seq<Seq<char>>
    decreases paths.len(),
{
    if paths.len() == 0 {
        Seq::empty()
    } else {
        all_ancestors(paths.drop_last()) + ancestors(paths.last())
    }
}

/// Whether a path is in a list, however it is written there.
pub open spec fn lists_path(list: Seq<Seq<char>>, path: Seq<char>) -> bool {
    exists|i: int| 0 <= i < list.len() && components(#[trigger] list[i]) == components(path)
}

/// The paths of a list, each one where it comes first.
pub open spec fn each_path_once(list: Seq<Seq<char>>) -> Seq<Seq<char>>
    decreases list.len(),
{
    if list.len() == 0 {
        Seq::empty()
    } else {
        let head = each_path_once(list.drop_last());
        if lists_path(head, list.last()) {
            head
        } else {
            head.push(list.last())
        }
    }
}

fn is_listed(list: &Vec<String>, path: &str) -> (r: bool)
    ensures
        r == lists_path(views(list@), path@),
{
    let mut i: usize = 0;
    while i < list.len()
        invariant
            i <= list@.len(),
            forall|j: int| 0 <= j < i ==> components(#[trigger] views(list@)[j]) != components(path@),
        decreases list@.len() - i,
    {
        assert(views(list@)[i as int] == list@[i as int]@);
        if same_path(list[i].as_str(), path) {
            return true;
        }
        i = i + 1;
    }
    false
}

fn push_ancestors(out: &mut Vec<String>, path: &str)
    ensures
        views(final(out)@) == views(old(out)@) + ancestors(path@),
{
    let ghost before = views(out@);
    let ghost mine = ancestors(path@);
    let deep: usize = depth_of(path);
    let stop: usize = if starts_at_root(path) {
        0
    } else {
        1
    };
    let mut k: usize = deep;
    assert(before + mine.take(0) =~= before);
    while k > stop
        invariant
            deep == depth(path@),
            mine == ancestors(path@),
            stop == (if is_absolute(path@) {
                0int
            } else {
                1int
            }),
            k <= deep,
            deep >= stop ==> k >= stop,
            views(out@) == before + mine.take(deep - k),
        decreases k,
    {
        let dir = take_down_to(path, k - 1);
        assert(dir@ == mine[deep - k]);
        let ghost held = out@;
        let ghost text = dir@;
        out.push(dir);
        assert(views(out@) =~= views(held).push(text));
        assert(mine.take(deep - k + 1) =~= mine.take(deep - k).push(text));
        k = k - 1;
    }
    assert(mine.take(deep - k) =~= mine);
}

/// The directories in which an `AGENTS.md` is looked for: those above the files
/// at hand, the nearest first, each one once.
pub fn nearby_dirs(paths: &Vec<String>) -> (r: Vec<String>)
    ensures
        views(r@) == each_path_once(all_ancestors(views(paths@))),
{
    let mut dirs: Vec<String> = Vec::new();
    let ghost all = views(paths@);
    let mut i: usize = 0;
    assert(all.take(0) =~= Seq::<Seq<char>>::empty());
    assert(views(dirs@) =~= Seq::<Seq<char>>::empty());
    while i < paths.len()
        invariant
            i <= paths@.len(),
            all == views(paths@),
            views(dirs@) == all_ancestors(all.take(i as int)),
        decreases paths@.len() - i,
    {
        assert(all.take(i + 1).drop_last() =~= all.take(i as int));
        assert(all.take(i + 1).last() == paths@[i as int]@);
        push_ancestors(&mut dirs, paths[i].as_str());
        i = i + 1;
    }
    assert(all.take(i as int) =~= all);
    let mut out: Vec<String> = Vec::new();
    let ghost found = views(dirs@);
    let mut j: usize = 0;
    assert(found.take(0) =~= Seq::<Seq<char>>::empty());
    assert(views(out@) =~= Seq::<Seq<char>>::empty());
    while j < dirs.len()
        invariant
            j <= dirs@.len(),
            found == views(dirs@),
            views(out@) == each_path_once(found.take(j as int)),
        decreases dirs@.len() - j,
    {
        assert(found.take(j + 1).drop_last() =~= found.take(j as int));
        assert(found.take(j + 1).last() == dirs@[j as int]@);
        if !is_listed(&out, dirs[j].as_str()) {
            let ghost held = out@;
            out.push(dirs[j].clone());
            assert(views(out@) =~= views(held).push(found[j as int]));
        }
        j = j + 1;
    }
    assert(found.take(j as int) =~= found);
    out
}

/// No directory is looked into twice.
pub proof fn law_no_directory_twice(list: Seq<Seq<char>>)
    ensures
        forall|i: int, j: int|
            0 <= i < j < each_path_once(list).len() ==> components(
                #[trigger] each_path_once(list)[i],
            ) != components(#[trigger] each_path_once(list)[j]),
    decreases list.len(),
{
    if list.len() > 0 {
        law_no_directory_twice(list.drop_last());
        let head = each_path_once(list.drop_last());
        let out = each_path_once(list);
        assert forall|i: int, j: int| 0 <= i < j < out.len() implies components(#[trigger] out[i])
            != components(#[trigger] out[j]) by {
            assert(out[i] == head[i]);
            if j < head.len() {
                assert(out[j] == head[j]);
            }
        }
    }
}

proof fn lemma_occurs_within(a: Seq<char>, b: Seq<char>, c: Seq<char>, x: Seq<char>)
    requires
        occurs(b, x),
    ensures
        occurs(a + b + c, x),
{
    let i = choose|i: int| occurs_at(b, x, i);
    let all = a + b + c;
    let at = a.len() + i;
    assert(all.subrange(at, at + x.len()) =~= b.subrange(i, i + x.len()));
    assert(occurs_at(all, x, at));
}

proof fn lemma_occurs_itself(x: Seq<char>)
    ensures
        occurs(x, x),
{
    assert(x.subrange(0, x.len() as int) =~= x);
    assert(occurs_at(x, x, 0));
}

proof fn lemma_occurs_left(a: Seq<char>, b: Seq<char>, x: Seq<char>)
    requires
        occurs(a, x),
    ensures
        occurs(a + b, x),
{
    lemma_occurs_within(Seq::empty(), a, b, x);
    assert(Seq::<char>::empty() + a + b =~= a + b);
}

proof fn lemma_occurs_right(a: Seq<char>, b: Seq<char>, x: Seq<char>)
    requires
        occurs(b, x),
    ensures
        occurs(a + b, x),
{
    lemma_occurs_within(a, b, Seq::empty(), x);
    assert(a + b + Seq::<char>::empty() =~= a + b);
}

/// What an entry puts into its section.
proof fn lemma_in_section(
    base: Seq<char>,
    entries: Seq<Entry>,
    trusted: bool,
    hits: Seq<bool>,
    i: int,
)
    requires
        0 <= i < entries.len(),
        hits.len() == entries.len(),
    ensures
        ({
            let s = sections_of(base, entries, trusted, hits);
            let e = entries[i];
            match place_of(e, trusted, hits[i]) {
                Place::Gated => occurs(s.index, gated_line(base, e)),
                Place::Curated => occurs(s.curated, full_text(base, e)),
                Place::Rule => occurs(s.rules, full_text(base, e)),
                Place::Index => occurs(s.index, index_line(base, e)),
                Place::Note => true,
                Place::Skill => occurs(s.skills, skill_line(e)),
            }
        }),
    decreases entries.len(), 0int,
{
    let init = entries.drop_last();
    let last = entries.last();
    let hit = hits[entries.len() - 1];
    let before = sections_of(base, init, trusted, hits);
    let s = sections_of(base, entries, trusted, hits);
    let e = entries[i];
    if i < init.len() {
        assert(init[i] == e);
        lemma_in_section_before(base, init, trusted, hits, i);
        match place_of(last, trusted, hit) {
            Place::Gated => {
                if place_of(e, trusted, hits[i]) == Place::Gated {
                    lemma_occurs_left(before.index, gated_line(base, last), gated_line(base, e));
                } else if place_of(e, trusted, hits[i]) == Place::Index {
                    lemma_occurs_left(before.index, gated_line(base, last), index_line(base, e));
                }
            },
            Place::Curated => {
                if place_of(e, trusted, hits[i]) == Place::Curated {
                    lemma_occurs_left(before.curated, full_text(base, last), full_text(base, e));
                }
            },
            Place::Rule => {
                if place_of(e, trusted, hits[i]) == Place::Rule {
                    lemma_occurs_left(before.rules, full_text(base, last), full_text(base, e));
                }
            },
            Place::Index => {
                if place_of(e, trusted, hits[i]) == Place::Gated {
                    lemma_occurs_left(before.index, index_line(base, last), gated_line(base, e));
                } else if place_of(e, trusted, hits[i]) == Place::Index {
                    lemma_occurs_left(before.index, index_line(base, last), index_line(base, e));
                }
            },
            Place::Note => {},
            Place::Skill => {
                if place_of(e, trusted, hits[i]) == Place::Skill {
                    lemma_occurs_left(before.skills, skill_line(last), skill_line(e));
                }
            },
        }
    } else {
        lemma_occurs_itself(gated_line(base, e));
        lemma_occurs_itself(full_text(base, e));
        lemma_occurs_itself(index_line(base, e));
        lemma_occurs_itself(skill_line(e));
        lemma_occurs_right(before.index, gated_line(base, e), gated_line(base, e));
        lemma_occurs_right(before.curated, full_text(base, e), full_text(base, e));
        lemma_occurs_right(before.rules, full_text(base, e), full_text(base, e));
        lemma_occurs_right(before.index, index_line(base, e), index_line(base, e));
        lemma_occurs_right(before.skills, skill_line(e), skill_line(e));
    }
}

/// The sections of the entries before do not look at the hits behind them.
proof fn lemma_in_section_before(
    base: Seq<char>,
    entries: Seq<Entry>,
    trusted: bool,
    hits: Seq<bool>,
    i: int,
)
    requires
        0 <= i < entries.len() < hits.len(),
    ensures
        ({
            let s = sections_of(base, entries, trusted, hits);
            let e = entries[i];
            match place_of(e, trusted, hits[i]) {
                Place::Gated => occurs(s.index, gated_line(base, e)),
                Place::Curated => occurs(s.curated, full_text(base, e)),
                Place::Rule => occurs(s.rules, full_text(base, e)),
                Place::Index => occurs(s.index, index_line(base, e)),
                Place::Note => true,
                Place::Skill => occurs(s.skills, skill_line(e)),
            }
        }),
    decreases entries.len(), 1int,
{
    let own = hits.take(entries.len() as int);
    lemma_hits_behind(base, entries, trusted, hits, own);
    lemma_in_section(base, entries, trusted, own, i);
}

proof fn lemma_hits_behind(
    base: Seq<char>,
    entries: Seq<Entry>,
    trusted: bool,
    a: Seq<bool>,
    b: Seq<bool>,
)
    requires
        entries.len() <= a.len(),
        entries.len() <= b.len(),
        forall|i: int| 0 <= i < entries.len() ==> #[trigger] a[i] == b[i],
    ensures
        sections_of(base, entries, trusted, a) == sections_of(base, entries, trusted, b),
    decreases entries.len(),
{
    if entries.len() > 0 {
        lemma_hits_behind(base, entries.drop_last(), trusted, a, b);
        assert(a[entries.len() - 1] == b[entries.len() - 1]);
    }
}

proof fn lemma_assembled(project: bool, s: Sections, notes: Seq<char>, x: Seq<char>)
    requires
        x.len() > 0,
    ensures
        occurs(s.rules, x) ==> occurs(assembled(project, s, notes), x),
        occurs(s.curated, x) ==> occurs(assembled(project, s, notes), x),
        occurs(s.index, x) ==> occurs(assembled(project, s, notes), x),
        occurs(s.skills, x) ==> occurs(assembled(project, s, notes), x),
        occurs(notes, x) ==> occurs(assembled(project, s, notes), x),
{
    let head = heading(project);
    let title = "\n### Rules (always applied)\n"@;
    let ruled = if s.rules.len() == 0 {
        head
    } else {
        head + title + s.rules
    };
    let noted = ruled + notes;
    let listed = "\n### Knowledge index (read these files on demand with the read tool)\n"@;
    let indexed = if s.curated.len() == 0 && s.index.len() == 0 {
        noted
    } else {
        noted + listed + s.curated + s.index
    };
    let offered =
        "\n### Skills (load with the skill tool when the task matches; do not reload with identical args)\n"@;
    let all = assembled(project, s, notes);
    if occurs(s.rules, x) {
        let i = choose|i: int| occurs_at(s.rules, x, i);
        assert(s.rules.len() > 0);
        lemma_occurs_right(head + title, s.rules, x);
        lemma_occurs_left(ruled, notes, x);
    }
    if occurs(notes, x) {
        lemma_occurs_right(ruled, notes, x);
    }
    if occurs(noted, x) {
        lemma_occurs_left(noted, listed, x);
        lemma_occurs_left(noted + listed, s.curated, x);
        lemma_occurs_left(noted + listed + s.curated, s.index, x);
    }
    if occurs(s.curated, x) {
        let i = choose|i: int| occurs_at(s.curated, x, i);
        assert(s.curated.len() > 0);
        lemma_occurs_right(noted + listed, s.curated, x);
        lemma_occurs_left(noted + listed + s.curated, s.index, x);
    }
    if occurs(s.index, x) {
        let i = choose|i: int| occurs_at(s.index, x, i);
        assert(s.index.len() > 0);
        lemma_occurs_right(noted + listed + s.curated, s.index, x);
    }
    if occurs(indexed, x) {
        lemma_occurs_left(indexed, offered, x);
        lemma_occurs_left(indexed + offered, s.skills, x);
        lemma_occurs_left(indexed + offered + s.skills, "\n"@, x);
    }
    if occurs(s.skills, x) {
        let i = choose|i: int| occurs_at(s.skills, x, i);
        assert(s.skills.len() > 0);
        lemma_occurs_right(indexed + offered, s.skills, x);
        lemma_occurs_left(indexed + offered + s.skills, "\n"@, x);
    }
}

/// Every entry is shown as it is due: an index of a directory and a rule that
/// applies in full, a skill by its name and description, an untrusted project's
/// entry and any other by its label and description.
pub proof fn law_each_entry_is_shown(
    base: Seq<char>,
    entries: Seq<Entry>,
    trusted: bool,
    hits: Seq<bool>,
    selected: Seq<usize>,
    i: int,
)
    requires
        0 <= i < entries.len(),
        hits.len() == entries.len(),
    ensures
        ({
            let e = entries[i];
            let text = rendered(base, entries, trusted, hits, selected)->0;
            let gated = e.scope == Scope::Project && !trusted;
            let curated = is_named(e.path@, "index.md"@);
            let due = e.always_apply || e.is_agents_md || e.globs@.len() == 0 || hits[i];
            &&& rendered(base, entries, trusted, hits, selected) is Some
            &&& gated ==> occurs(text, "- "@ + label_of(base, e.path@) + " — "@ + e.description@)
            &&& !gated && (curated || e.kind == Kind::Rule && due) ==> occurs(
                text,
                "\n#### "@ + label_of(base, e.path@) + "\n"@ + trimmed(e.content@) + "\n"@,
            )
            &&& !gated && !curated && (e.kind == Kind::Rule && !due || e.kind == Kind::Reference
                || e.kind == Kind::History || e.kind == Kind::Command) ==> occurs(
                text,
                "- "@ + label_of(base, e.path@) + " — "@ + e.description@ + "\n"@,
            )
            &&& !gated && !curated && e.kind == Kind::Skill ==> occurs(
                text,
                "\n- "@ + e.slug@ + ": "@ + first_chars(e.description@, 250),
            )
        }),
{
    let e = entries[i];
    let s = sections_of(base, entries, trusted, hits);
    let notes = notes_of(entries, selected);
    let project = has_project(entries);
    lemma_in_section(base, entries, trusted, hits, i);
    reveal_strlit("- ");
    reveal_strlit("\n- ");
    reveal_strlit("\n#### ");
    let label = label_of(base, e.path@);
    let plain = "- "@ + label + " — "@ + e.description@;
    let mark = "（未信任项目，信任后注入）\n"@;
    assert(gated_line(base, e) == plain + mark);
    lemma_assembled(project, s, notes, gated_line(base, e));
    lemma_assembled(project, s, notes, full_text(base, e));
    lemma_assembled(project, s, notes, index_line(base, e));
    lemma_assembled(project, s, notes, skill_line(e));
    let text = assembled(project, s, notes);
    if occurs(text, gated_line(base, e)) {
        lemma_occurs_start(text, plain, mark);
    }
    let offer = "\n- "@ + e.slug@ + ": "@ + first_chars(e.description@, 250);
    if occurs(text, skill_line(e)) {
        if let Some(when) = e.when_to_use {
            lemma_occurs_start(text, offer, " (use when: "@ + when@ + ")"@);
        }
    }
}

proof fn lemma_occurs_start(text: Seq<char>, x: Seq<char>, y: Seq<char>)
    requires
        occurs(text, x + y),
    ensures
        occurs(text, x),
{
    let i = choose|i: int| occurs_at(text, x + y, i);
    assert(text.subrange(i, i + x.len()) =~= text.subrange(i, i + (x + y).len()).subrange(
        0,
        x.len() as int,
    ));
    assert((x + y).subrange(0, x.len() as int) =~= x);
    assert(occurs_at(text, x, i));
}

proof fn lemma_in_notes(entries: Seq<Entry>, selected: Seq<usize>, k: int)
    requires
        0 <= k < selected.len(),
    ensures
        occurs(notes_of(entries, selected), note_text(entries[selected[k] as int])),
    decreases selected.len(),
{
    let init = selected.drop_last();
    let own = note_text(entries[selected[k] as int]);
    let last = note_text(entries[selected.last() as int]);
    if k < init.len() {
        assert(init[k] == selected[k]);
        lemma_in_notes(entries, init, k);
        lemma_occurs_left(notes_of(entries, init), last, own);
    } else {
        lemma_occurs_itself(own);
        lemma_occurs_right(notes_of(entries, init), last, own);
    }
}

/// Every note that was selected is shown, with its type, its description and the
/// start of its content.
pub proof fn law_selected_notes_are_shown(
    base: Seq<char>,
    entries: Seq<Entry>,
    trusted: bool,
    hits: Seq<bool>,
    selected: Seq<usize>,
    k: int,
)
    requires
        0 <= k < selected.len(),
        selected[k] < entries.len(),
    ensures
        ({
            let e = entries[selected[k] as int];
            rendered(base, entries, trusted, hits, selected) is Some && occurs(
                rendered(base, entries, trusted, hits, selected)->0,
                "\n#### ["@ + (match e.note_type {
                    Some(t) => t@,
                    None => "note"@,
                }) + "] "@ + e.description@ + " ("@ + e.scope.name() + ")\n"@ + first_chars(
                    e.content@,
                    500,
                ) + "\n"@,
            )
        }),
{
    let e = entries[selected[k] as int];
    lemma_in_notes(entries, selected, k);
    reveal_strlit("\n#### [");
    lemma_assembled(
        has_project(entries),
        sections_of(base, entries, trusted, hits),
        notes_of(entries, selected),
        note_text(e),
    );
}

/// The notes to choose from are exactly the notes and memories, but for those of an
/// untrusted project and the indexes of directories.
pub proof fn law_notes_are_candidates(entries: Seq<Entry>, trusted: bool, hits: Seq<bool>, i: int)
    requires
        entries.len() <= usize::MAX,
        hits.len() >= entries.len(),
        0 <= i < entries.len(),
    ensures
        note_places(entries, trusted, hits).contains(i as usize) <==> (entries[i].kind == Kind::Note
            || entries[i].kind == Kind::Memory) && (trusted || entries[i].scope != Scope::Project)
            && !is_named(entries[i].path@, "index.md"@),
    decreases entries.len(),
{
    let init = entries.drop_last();
    let head = note_places(init, trusted, hits);
    let out = note_places(entries, trusted, hits);
    let last = (entries.len() - 1) as usize;
    if i < init.len() {
        law_notes_are_candidates(init, trusted, hits, i);
        assert(init[i] == entries[i]);
        if head.contains(i as usize) {
            let k = choose|k: int| 0 <= k < head.len() && head[k] == i as usize;
            assert(out[k] == i as usize);
        }
        if out.contains(i as usize) {
            let k = choose|k: int| 0 <= k < out.len() && out[k] == i as usize;
            assert(k < head.len());
            assert(head[k] == i as usize);
        }
    } else {
        if out.len() > head.len() {
            assert(out.last() == last);
        }
        if out.contains(last) && out.len() == head.len() {
            let k = choose|k: int| 0 <= k < out.len() && out[k] == last;
            lemma_note_places_bound(init, trusted, hits, k);
        }
    }
}

proof fn lemma_note_places_bound(entries: Seq<Entry>, trusted: bool, hits: Seq<bool>, k: int)
    requires
        entries.len() <= usize::MAX,
        0 <= k < note_places(entries, trusted, hits).len(),
    ensures
        note_places(entries, trusted, hits)[k] < entries.len(),
    decreases entries.len(),
{
    let head = note_places(entries.drop_last(), trusted, hits);
    if k < head.len() {
        lemma_note_places_bound(entries.drop_last(), trusted, hits, k);
    }
}

/// No directory is left out: each that was given is listed, by itself or as another
/// spelling of it.
pub proof fn law_every_directory_is_listed(list: Seq<Seq<char>>, path: Seq<char>)
    ensures
        lists_path(each_path_once(list), path) <==> lists_path(list, path),
    decreases list.len(),
{
    if list.len() > 0 {
        let init = list.drop_last();
        let head = each_path_once(init);
        let out = each_path_once(list);
        law_every_directory_is_listed(init, path);
        law_every_directory_is_listed(init, list.last());
        if lists_path(out, path) {
            let i = choose|i: int| 0 <= i < out.len() && components(#[trigger] out[i]) == components(
                path,
            );
            if i < head.len() {
                assert(head[i] == out[i]);
                let k = choose|k: int|
                    0 <= k < init.len() && components(#[trigger] init[k]) == components(path);
                assert(list[k] == init[k]);
            } else {
                assert(list[list.len() - 1] == out[i]);
            }
        }
        if lists_path(list, path) {
            let k = choose|k: int|
                0 <= k < list.len() && components(#[trigger] list[k]) == components(path);
            if k < init.len() {
                assert(init[k] == list[k]);
                assert(lists_path(init, path));
                let i = choose|i: int|
                    0 <= i < head.len() && components(#[trigger] head[i]) == components(path);
                assert(out[i] == head[i]);
            } else if lists_path(head, list.last()) {
                let i = choose|i: int|
                    0 <= i < head.len() && components(#[trigger] head[i]) == components(
                        list.last(),
                    );
                assert(out[i] == head[i]);
            } else {
                assert(out.last() == list[k]);
            }
        }
    }
}

/// The directories above a path are its beginnings, each one part shorter than the
/// one before; a path that starts at the root ends there.
pub proof fn law_directories_above_are_beginnings(path: Seq<char>, i: int)
    requires
        0 <= i < ancestors(path).len(),
    ensures
        components(ancestors(path)[i]) == components(path).take(components(path).len() - 1 - i),
        ancestors(path).len() == components(path).len() - 1,
{
    law_path_down_to_a_part(path, depth(path) - 1 - i);
}

/// The directories above some paths are those above each of them, in order.
pub proof fn law_directories_above_each_path(paths: Seq<Seq<char>>, path: Seq<char>)
    ensures
        all_ancestors(paths.push(path)) == all_ancestors(paths) + ancestors(path),
        all_ancestors(Seq::empty()).len() == 0,
{
    assert(paths.push(path).drop_last() =~= paths);
}

/// A path that is written out in plain characters is hit by itself alone, and one
/// with a star at its end by what begins with it.
pub proof fn law_plain_patterns_hit(name: Seq<char>, paths: Seq<Seq<char>>, hit: bool)
    requires
        name.len() > 0,
        forall|i: int| 0 <= i < name.len() ==> is_plain(#[trigger] name[i]),
    ensures
        verdict_holds(seq![name], paths, hit) ==> (hit <==> exists|k: int|
            0 <= k < paths.len() && #[trigger] paths[k] == name),
        verdict_holds(seq![name.push('*')], paths, hit) ==> (hit <==> exists|k: int|
            0 <= k < paths.len() && starts(#[trigger] paths[k], name)),
{
    let one = seq![name];
    let star = name.push('*');
    let two = seq![star];
    assert(star.drop_last() =~= name);
    assert(is_whole(name) && is_simple(name));
    assert(is_prefix(star));
    assert(!is_text(star)) by {
        assert(star[name.len() as int] == '*');
    }
    assert forall|i: int| 0 <= i < star.len() implies #[trigger] star[i] != '/' by {
        if i < name.len() {
            assert(star[i] == name[i]);
        }
    }
    assert(is_simple(star));
    assert(all_simple(one) && all_simple(two));
    assert forall|path: Seq<char>| #[trigger] some_match(one, path) <==> path == name by {
        if path == name {
            assert(pattern_match(one[0], path));
        }
    }
    assert forall|path: Seq<char>| #[trigger] some_match(two, path) <==> starts(path, name) by {
        if starts(path, name) {
            assert(pattern_match(two[0], path));
        }
    }
    if exists|k: int| 0 <= k < paths.len() && #[trigger] paths[k] == name {
        let k = choose|k: int| 0 <= k < paths.len() && #[trigger] paths[k] == name;
        assert(some_match(one, paths[k]));
    }
    if exists|k: int| 0 <= k < paths.len() && starts(#[trigger] paths[k], name) {
        let k = choose|k: int| 0 <= k < paths.len() && starts(#[trigger] paths[k], name);
        assert(some_match(two, paths[k]));
    }
}

} // verus!
