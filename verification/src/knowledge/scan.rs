//! Which files of the knowledge trees become entries, and which entries hide
//! others.

use crate::knowledge::{kind_named, Entry, Kind};
use crate::text::{
    ascii_upper, cat2, ends, ends_with, str_eq, to_ascii_uppercase, trim_end_matches, trimmed_of, views,
};
use vstd::prelude::*;
use vstd::string::*;

verus! {

pub const MAX_DEPTH: usize = 8;

pub const MAX_FILE_BYTES: usize = 262_144;

pub const MAX_TOTAL_BYTES: usize = 2_097_152;

/// Two entries that stand for the same thing.
pub open spec fn same_key(a: Entry, b: Entry) -> bool {
    a.kind == b.kind && a.slug@ == b.slug@
}

pub open spec fn holds_key(entries: Seq<Entry>, entry: Entry) -> bool {
    exists|i: int| 0 <= i < entries.len() && same_key(#[trigger] entries[i], entry)
}

/// The entries that are not hidden by an earlier one.
pub open spec fn unique_of(entries: Seq<Entry>) -> Seq<Entry>
    decreases entries.len(),
{
    if entries.len() == 0 {
        Seq::empty()
    } else {
        let head = unique_of(entries.drop_last());
        if holds_key(head, entries.last()) {
            head
        } else {
            head.push(entries.last())
        }
    }
}

/// The entries that are injected: of several with the same kind and slug the
/// first one, which is the project's where there is one.
pub fn unique(entries: Vec<Entry>) -> (r: Vec<Entry>)
    ensures
        r@ == unique_of(entries@),
{
    let mut entries = entries;
    let ghost whole = entries@;
    let count: usize = entries.len();
    let mut out: Vec<Entry> = Vec::new();
    let mut i: usize = 0;
    assert(whole.take(0) =~= Seq::<Entry>::empty());
    assert(entries@ =~= whole.subrange(0, whole.len() as int));
    while i < count
        invariant
            i <= count == whole.len(),
            entries@ == whole.subrange(i as int, whole.len() as int),
            out@ == unique_of(whole.take(i as int)),
        decreases count - i,
    {
        assert(whole.take(i + 1).drop_last() =~= whole.take(i as int));
        assert(entries@[0] == whole[i as int]);
        let entry = entries.remove(0);
        assert(entry == whole[i as int]);
        let mut hidden = false;
        let mut j: usize = 0;
        while j < out.len()
            invariant
                j <= out@.len(),
                hidden == exists|k: int| 0 <= k < j && same_key(#[trigger] out@[k], entry),
            decreases out@.len() - j,
        {
            if out[j].kind == entry.kind && str_eq(out[j].slug.as_str(), entry.slug.as_str()) {
                hidden = true;
                assert(same_key(out@[j as int], entry));
            }
            j = j + 1;
        }
        if !hidden {
            out.push(entry);
        }
        i = i + 1;
        assert(entries@ =~= whole.subrange(i as int, whole.len() as int));
    }
    assert(whole.take(i as int) =~= whole);
    out
}

/// No two of the entries that are injected stand for the same thing.
pub proof fn law_no_entry_twice(entries: Seq<Entry>)
    ensures
        forall|i: int, j: int|
            0 <= i < j < unique_of(entries).len() ==> !same_key(
                #[trigger] unique_of(entries)[i],
                #[trigger] unique_of(entries)[j],
            ),
    decreases entries.len(),
{
    if entries.len() > 0 {
        let head = unique_of(entries.drop_last());
        law_no_entry_twice(entries.drop_last());
        let out = unique_of(entries);
        assert forall|i: int, j: int| 0 <= i < j < out.len() implies !same_key(
            #[trigger] out[i],
            #[trigger] out[j],
        ) by {
            assert(out[i] == head[i]);
            if j < head.len() {
                assert(out[j] == head[j]);
            }
        }
    }
}

/// An entry that no earlier one stands for is injected: the project's hides the
/// personal one, and not the other way round.
pub proof fn law_first_entry_wins(entries: Seq<Entry>, i: int)
    requires
        0 <= i < entries.len(),
        forall|j: int| 0 <= j < i ==> !same_key(#[trigger] entries[j], entries[i]),
    ensures
        unique_of(entries).contains(entries[i]),
    decreases entries.len(),
{
    let init = entries.drop_last();
    let head = unique_of(init);
    if i < entries.len() - 1 {
        assert forall|j: int| 0 <= j < i implies !same_key(#[trigger] init[j], init[i]) by {
            assert(init[j] == entries[j]);
        }
        law_first_entry_wins(init, i);
        let k = choose|k: int| 0 <= k < head.len() && head[k] == entries[i];
        assert(unique_of(entries)[k] == entries[i]);
    } else {
        lemma_unique_is_from(init);
        if holds_key(head, entries.last()) {
            let k = choose|k: int| 0 <= k < head.len() && same_key(#[trigger] head[k], entries.last());
            let j = choose|j: int| 0 <= j < init.len() && init[j] == head[k];
            assert(entries[j] == head[k]);
        }
        assert(unique_of(entries)[head.len() as int] == entries[i]);
    }
}

proof fn lemma_unique_is_from(entries: Seq<Entry>)
    ensures
        forall|i: int|
            0 <= i < unique_of(entries).len() ==> entries.contains(#[trigger] unique_of(entries)[i]),
    decreases entries.len(),
{
    if entries.len() > 0 {
        let init = entries.drop_last();
        lemma_unique_is_from(init);
        let out = unique_of(entries);
        assert forall|i: int| 0 <= i < out.len() implies entries.contains(#[trigger] out[i]) by {
            if i < unique_of(init).len() {
                assert(out[i] == unique_of(init)[i]);
                let k = choose|k: int| 0 <= k < init.len() && init[k] == out[i];
                assert(entries[k] == out[i]);
            } else {
                assert(entries[entries.len() - 1] == out[i]);
            }
        }
    }
}

/// The kind of the files in a directory: by its name in the singular, else by
/// the name itself, else references.
pub open spec fn kind_of_dir(dir: Option<Seq<char>>) -> Kind {
    match dir {
        None => Kind::Reference,
        Some(name) => match kind_named(trimmed_of(name, 's')) {
            Some(kind) => kind,
            None => match kind_named(name) {
                Some(kind) => kind,
                None => Kind::Reference,
            },
        },
    }
}

/// The kind of a file by the first directory on its way from the root.
pub fn kind_of(dir: &Option<String>) -> (r: Kind)
    ensures
        r == kind_of_dir(crate::text::opt_view(*dir)),
{
    match dir {
        None => Kind::Reference,
        Some(name) => {
            let singular = trim_end_matches(name.as_str(), 's');
            match Kind::from_str(singular.as_str()) {
                Some(kind) => kind,
                None => match Kind::from_str(name.as_str()) {
                    Some(kind) => kind,
                    None => Kind::Reference,
                },
            }
        },
    }
}

proof fn lemma_singular(plural: Seq<char>, singular: Seq<char>)
    requires
        plural == singular.push('s'),
        singular.len() == 0 || singular.last() != 's',
    ensures
        trimmed_of(plural, 's') == singular,
{
    reveal_with_fuel(trimmed_of, 3);
    assert(plural.drop_last() =~= singular);
}

/// Every kind is read back from the directory that its files are written to.
pub proof fn law_directories_name_kinds(kind: Kind)
    ensures
        kind_of_dir(Some(kind.dir())) == kind,
{
    reveal_strlit("rules");
    reveal_strlit("references");
    reveal_strlit("skills");
    reveal_strlit("commands");
    reveal_strlit("notes");
    reveal_strlit("memory");
    reveal_strlit("history");
    reveal_strlit("rule");
    reveal_strlit("reference");
    reveal_strlit("doc");
    reveal_strlit("skill");
    reveal_strlit("command");
    reveal_strlit("note");
    match kind {
        Kind::Rule => {
            assert("rules"@ =~= "rule"@.push('s'));
            lemma_singular("rules"@, "rule"@);
        },
        Kind::Reference => {
            assert("references"@ =~= "reference"@.push('s'));
            lemma_singular("references"@, "reference"@);
            assert("reference"@.len() != "rule"@.len());
        },
        Kind::Skill => {
            assert("skills"@ =~= "skill"@.push('s'));
            lemma_singular("skills"@, "skill"@);
            assert("skill"@.len() != "rule"@.len() && "skill"@.len() != "reference"@.len());
            assert("skill"@.len() != "doc"@.len());
        },
        Kind::Command => {
            assert("commands"@ =~= "command"@.push('s'));
            lemma_singular("commands"@, "command"@);
            assert("command"@.len() == 7);
        },
        Kind::Note => {
            assert("notes"@ =~= "note"@.push('s'));
            lemma_singular("notes"@, "note"@);
            assert("note"@[0] != "rule"@[0]);
        },
        Kind::Memory => {
            assert("memory"@.last() != 's');
            assert(trimmed_of("memory"@, 's') == "memory"@);
            assert("memory"@.len() == 6);
        },
        Kind::History => {
            assert("history"@.last() != 's');
            assert(trimmed_of("history"@, 's') == "history"@);
            assert("history"@[0] != "command"@[0]);
            assert("history"@.len() == 7);
        },
    }
}

/// Something in a directory of a tree. `inside` says that its real path is below
/// the tree's; `first` is the first directory on the way to it.
#[derive(Debug)]
pub struct Found {
    pub name: String,
    pub first: Option<String>,
    pub symlink: bool,
    pub inside: bool,
    pub directory: bool,
    pub file: bool,
}

/// What is done with it.
#[derive(Debug, Clone, Copy, PartialEq, Eq, Structural)]
pub enum Visit {
    Skip,
    Descend,
    /// The directory of a skill: its `SKILL.md` is the entry, and nothing else in
    /// it; without one it is entered.
    SkillDir,
    Read(Kind),
}

/// A name with the extension `md`.
pub open spec fn is_markdown(name: Seq<char>) -> bool {
    ends(name, ".md"@) && name.len() > 3
}

pub open spec fn visit_of(found: Found) -> Visit {
    let kind = kind_of_dir(crate::text::opt_view(found.first));
    if found.symlink || !found.inside {
        Visit::Skip
    } else if found.directory {
        if kind == Kind::Skill {
            Visit::SkillDir
        } else {
            Visit::Descend
        }
    } else if found.file && is_markdown(found.name@) && found.name@ != "SKILL.md"@ {
        Visit::Read(kind)
    } else {
        Visit::Skip
    }
}

pub fn visit(found: &Found) -> (r: Visit)
    ensures
        r == visit_of(*found),
{
    if found.symlink || !found.inside {
        return Visit::Skip;
    }
    let kind = kind_of(&found.first);
    if found.directory {
        return if kind == Kind::Skill {
            Visit::SkillDir
        } else {
            Visit::Descend
        };
    }
    let long = crate::text::chars_of(found.name.as_str()).len() > 3;
    if found.file && ends_with(found.name.as_str(), ".md") && long && !str_eq(
        found.name.as_str(),
        "SKILL.md",
    ) {
        Visit::Read(kind)
    } else {
        Visit::Skip
    }
}

/// Nothing is read through a symlink, or outside of the tree.
pub proof fn law_links_are_not_followed(found: Found)
    requires
        found.symlink || !found.inside,
    ensures
        visit_of(found) == Visit::Skip,
{
}

/// The bytes that may still be read.
#[derive(Debug, Clone, Copy, PartialEq, Eq, Structural)]
pub struct ReadBudget {
    pub remaining: usize,
}

impl ReadBudget {
    pub open spec fn allows(self, len: int) -> bool {
        len <= MAX_FILE_BYTES && len <= self.remaining
    }

    pub fn new() -> (r: ReadBudget)
        ensures
            r.remaining == MAX_TOTAL_BYTES,
    {
        ReadBudget { remaining: MAX_TOTAL_BYTES }
    }

    /// A directory at this depth is looked into.
    pub fn may_enter(&self, depth: usize) -> (r: bool)
        ensures
            r == (depth <= MAX_DEPTH && self.remaining > 0),
    {
        depth <= MAX_DEPTH && self.remaining > 0
    }

    /// A file of this size may be read.
    pub fn fits(&self, len: u64) -> (r: bool)
        ensures
            r == self.allows(len as int),
    {
        len <= MAX_FILE_BYTES as u64 && len <= self.remaining as u64
    }

    /// A file of this size was read; false where it counts as unread.
    pub fn charge(&mut self, len: usize) -> (r: bool)
        ensures
            r == old(self).allows(len as int),
            final(self).remaining == (if r {
                old(self).remaining - len
            } else {
                old(self).remaining as int
            }),
    {
        if len > MAX_FILE_BYTES || len > self.remaining {
            return false;
        }
        self.remaining = self.remaining - len;
        true
    }
}

/// The way through a tree: the directories that are still to be looked into, each
/// with its depth, and what may still be read.
#[derive(Debug)]
pub struct Walk {
    pub stack: Vec<(String, usize)>,
    pub budget: ReadBudget,
}

pub open spec fn stack_view(stack: Seq<(String, usize)>) -> Seq<(Seq<char>, int)> {
    stack.map_values(|dir: (String, usize)| (dir.0@, dir.1 as int))
}

/// Without the directories at its end that are too deep.
pub open spec fn shallow(stack: Seq<(Seq<char>, int)>) -> Seq<(Seq<char>, int)>
    decreases stack.len(),
{
    if stack.len() > 0 && stack.last().1 > MAX_DEPTH {
        shallow(stack.drop_last())
    } else {
        stack
    }
}

impl Walk {
    /// At the root of a tree.
    pub fn new(root: &str, budget: ReadBudget) -> (r: Walk)
        ensures
            stack_view(r.stack@) == seq![(root@, 0int)],
            r.budget == budget,
    {
        let mut stack: Vec<(String, usize)> = Vec::new();
        stack.push((root.to_owned(), 0));
        assert(stack_view(stack@) =~= seq![(root@, 0int)]);
        Walk { stack, budget }
    }

    /// The next directory to look into: the one that was found last. None where
    /// none is left, or nothing may be read any more.
    pub fn next(&mut self) -> (r: Option<(String, usize)>)
        ensures
            final(self).budget == old(self).budget,
            ({
                let left = if old(self).budget.remaining == 0 {
                    Seq::<(Seq<char>, int)>::empty()
                } else {
                    shallow(stack_view(old(self).stack@))
                };
                if left.len() == 0 {
                    r is None && stack_view(final(self).stack@) == left
                } else {
                    &&& r matches Some(dir)
                    &&& (dir.0@, dir.1 as int) == left.last()
                    &&& stack_view(final(self).stack@) == left.drop_last()
                    &&& dir.1 <= MAX_DEPTH
                }
            }),
    {
        let ghost left = if self.budget.remaining == 0 {
            Seq::<(Seq<char>, int)>::empty()
        } else {
            shallow(stack_view(self.stack@))
        };
        while self.stack.len() > 0
            invariant
                self.budget == old(self).budget,
                left == (if old(self).budget.remaining == 0 {
                    Seq::<(Seq<char>, int)>::empty()
                } else {
                    shallow(stack_view(old(self).stack@))
                }),
                self.budget.remaining > 0 ==> left == shallow(stack_view(self.stack@)),
            decreases self.stack@.len(),
        {
            let ghost before = self.stack@;
            let ghost seen = stack_view(before);
            let top = self.stack.pop();
            assert(stack_view(self.stack@) =~= seen.drop_last());
            if let Some((path, depth)) = top {
                assert(seen.last() == (path@, depth as int));
                if self.budget.may_enter(depth) {
                    return Some((path, depth));
                }
            }
        }
        assert(stack_view(self.stack@) =~= Seq::<(Seq<char>, int)>::empty());
        None
    }

    /// A directory was found in one of this depth.
    pub fn enter(&mut self, path: &str, depth: usize)
        requires
            depth < usize::MAX,
        ensures
            final(self).budget == old(self).budget,
            stack_view(final(self).stack@) == stack_view(old(self).stack@).push((path@, depth + 1)),
    {
        let ghost before = self.stack@;
        self.stack.push((path.to_owned(), depth + 1));
        assert(stack_view(self.stack@) =~= stack_view(before).push((path@, depth + 1)));
    }
}

/// What is read of a file, an entry or nothing. `rel` is its path below the root
/// without the extension.
pub open spec fn kept(entry: Entry, name: Seq<char>) -> bool {
    name == "index.md"@ || entry.kind != Kind::Skill || entry.description@.len() > 0
}

/// The entry that a file becomes, if it becomes one. An index is named by its
/// path, so that each directory can have one; a skill without a description
/// could not be found.
pub fn accept(entry: Entry, name: &str, rel: Option<String>) -> (r: Option<Entry>)
    ensures
        r is Some <==> kept(entry, name@),
        r matches Some(out) ==> {
            &&& out == (Entry { slug: out.slug, ..entry })
            &&& out.slug@ == (match rel {
                Some(path) if name@ == "index.md"@ => path@,
                _ => entry.slug@,
            })
        },
{
    let mut entry = entry;
    if str_eq(name, "index.md") {
        if let Some(path) = rel {
            entry.slug = path;
        }
        return Some(entry);
    }
    if entry.kind == Kind::Skill && entry.description.as_str().is_empty() {
        return None;
    }
    Some(entry)
}

/// The rule files that tools keep in the root of a project, the common one first
/// and behind it that of the product.
pub open spec fn root_rules(product: Seq<char>) -> Seq<Seq<char>> {
    seq![
        "AGENTS.md"@,
        product.map_values(|c: char| ascii_upper(c)) + ".md"@,
        "GEMINI.md"@,
        ".cursorrules"@,
    ]
}

pub fn root_rule_files(product: &str) -> (r: Vec<String>)
    ensures
        views(r@) == root_rules(product@),
{
    let capitals = to_ascii_uppercase(product);
    let own = cat2(capitals.as_str(), ".md");
    let mut names: Vec<String> = Vec::new();
    names.push("AGENTS.md".to_owned());
    names.push(own);
    names.push("GEMINI.md".to_owned());
    names.push(".cursorrules".to_owned());
    assert(views(names@) =~= root_rules(product@));
    names
}

/// The entry that a rule file in the root of the project becomes: it always
/// applies.
pub open spec fn is_root_rule(rule: Entry, entry: Entry, name: Seq<char>) -> bool {
    &&& rule == (Entry {
        always_apply: true,
        is_agents_md: true,
        description: rule.description,
        ..entry
    })
    &&& rule.description@ == "root "@ + name
}

pub fn root_rule(entry: Entry, name: &str) -> (r: Entry)
    ensures
        is_root_rule(r, entry, name@),
{
    let mut entry = entry;
    entry.always_apply = true;
    entry.is_agents_md = true;
    entry.description = cat2("root ", name);
    entry
}

/// The entries of the rule files in the root, in the order of their names.
/// `found` holds for each name what was read under it, if anything was.
pub open spec fn are_root_rules(
    product: Seq<char>,
    rules: Seq<Entry>,
    found: Seq<Option<Entry>>,
) -> bool
    decreases found.len(),
{
    if found.len() == 0 {
        rules.len() == 0
    } else {
        match found.last() {
            None => are_root_rules(product, rules, found.drop_last()),
            Some(entry) => {
                &&& rules.len() > 0
                &&& is_root_rule(rules.last(), entry, root_rules(product)[found.len() - 1])
                &&& are_root_rules(product, rules.drop_last(), found.drop_last())
            },
        }
    }
}

pub fn root_entries(product: &str, found: Vec<Option<Entry>>) -> (r: Vec<Entry>)
    requires
        found@.len() <= root_rules(product@).len(),
    ensures
        are_root_rules(product@, r@, found@),
{
    let names = root_rule_files(product);
    let mut found = found;
    let ghost whole = found@;
    let count: usize = found.len();
    let mut out: Vec<Entry> = Vec::new();
    let mut i: usize = 0;
    assert(whole.take(0) =~= Seq::<Option<Entry>>::empty());
    assert(found@ =~= whole.subrange(0, whole.len() as int));
    assert(views(names@).len() == names@.len());
    while i < count
        invariant
            i <= count == whole.len() <= names@.len(),
            views(names@) == root_rules(product@),
            found@ == whole.subrange(i as int, whole.len() as int),
            are_root_rules(product@, out@, whole.take(i as int)),
        decreases count - i,
    {
        assert(whole.take(i + 1).drop_last() =~= whole.take(i as int));
        assert(found@[0] == whole[i as int]);
        assert(views(names@)[i as int] == names@[i as int]@);
        let item = found.remove(0);
        if let Some(entry) = item {
            let ghost before = out@;
            out.push(root_rule(entry, names[i].as_str()));
            assert(out@.drop_last() =~= before);
        }
        i = i + 1;
        assert(found@ =~= whole.subrange(i as int, whole.len() as int));
    }
    assert(whole.take(i as int) =~= whole);
    out
}

/// What is kept once are entries that were found, and each entry that was found is
/// there or gave way to one of the same kind and name.
pub proof fn law_every_entry_is_represented(entries: Seq<Entry>, i: int)
    requires
        0 <= i < entries.len(),
    ensures
        holds_key(unique_of(entries), entries[i]),
        forall|k: int|
            0 <= k < unique_of(entries).len() ==> entries.contains(#[trigger] unique_of(entries)[k]),
    decreases entries.len(),
{
    let init = entries.drop_last();
    let head = unique_of(init);
    let out = unique_of(entries);
    if init.len() > 0 {
        law_every_entry_is_represented(
            init,
            if i < init.len() {
                i
            } else {
                0
            },
        );
    }
    if i < init.len() {
        assert(init[i] == entries[i]);
        let k = choose|k: int| 0 <= k < head.len() && same_key(#[trigger] head[k], entries[i]);
        assert(out[k] == head[k]);
    } else if holds_key(head, entries.last()) {
        assert(out == head);
    } else {
        assert(same_key(out.last(), entries[i]));
    }
    assert forall|k: int| 0 <= k < out.len() implies entries.contains(#[trigger] out[k]) by {
        if k < head.len() {
            assert(out[k] == head[k]);
            let m = choose|m: int| 0 <= m < init.len() && init[m] == head[k];
            assert(entries[m] == out[k]);
        } else {
            assert(entries[entries.len() - 1] == out[k]);
        }
    }
}

/// What is found inside and is no link is entered where it is a directory, a
/// skill's in its own way, and read where it is a Markdown file, as an entry of the
/// kind of its directory. A skill's own file is read with its directory alone.
pub proof fn law_what_is_found_is_visited(found: Found)
    requires
        !found.symlink,
        found.inside,
    ensures
        ({
            let kind = kind_of_dir(crate::text::opt_view(found.first));
            let markdown = found.name@.len() > 3 && ends(found.name@, ".md"@);
            &&& found.directory && kind == Kind::Skill ==> visit_of(found) == Visit::SkillDir
            &&& found.directory && kind != Kind::Skill ==> visit_of(found) == Visit::Descend
            &&& !found.directory && found.file && markdown && found.name@ != "SKILL.md"@ ==> visit_of(
                found,
            ) == Visit::Read(kind)
            &&& !found.directory && (!found.file || !markdown || found.name@ == "SKILL.md"@)
                ==> visit_of(found) == Visit::Skip
        }),
{
}

/// A file is read only while it is not too long and the budget still holds it.
pub proof fn law_read_budget_is_kept(budget: ReadBudget, len: int)
    ensures
        budget.allows(len) <==> len <= 262_144 && len <= budget.remaining,
{
}

/// The walk goes on with the last directory that is not too deep, and leaves out
/// only those behind it that are.
pub proof fn law_deep_directories_are_left_out(stack: Seq<(Seq<char>, int)>)
    ensures
        shallow(stack).len() <= stack.len(),
        stack.take(shallow(stack).len() as int) == shallow(stack),
        shallow(stack).len() > 0 ==> shallow(stack).last().1 <= 8,
        forall|i: int|
            shallow(stack).len() <= i < stack.len() ==> (#[trigger] stack[i]).1 > 8,
    decreases stack.len(),
{
    if stack.len() > 0 && stack.last().1 > MAX_DEPTH {
        let init = stack.drop_last();
        law_deep_directories_are_left_out(init);
        assert(stack.take(shallow(stack).len() as int) =~= init.take(shallow(stack).len() as int));
        assert forall|i: int| shallow(stack).len() <= i < stack.len() implies (
        #[trigger] stack[i]).1 > 8 by {
            if i < init.len() {
                assert(init[i] == stack[i]);
            }
        }
    } else {
        assert(stack.take(stack.len() as int) =~= stack);
    }
}

/// Two entries stand for the same thing exactly where both kind and name agree.
pub proof fn law_kind_and_name_tell_apart(a: Entry, b: Entry)
    ensures
        same_key(a, b) <==> a.kind == b.kind && a.slug@ == b.slug@,
        holds_key(seq![a], b) <==> same_key(a, b),
{
    assert(seq![a][0] == a);
}

/// One more file that was read in the root is one more rule, with what the file
/// holds; it always applies, and says which file it is. A file that was not there
/// is none.
pub proof fn law_root_files_are_rules(
    product: Seq<char>,
    rules: Seq<Entry>,
    found: Seq<Option<Entry>>,
    next: Option<Entry>,
    rule: Entry,
)
    ensures
        are_root_rules(product, Seq::empty(), Seq::empty()),
        next is None ==> (are_root_rules(product, rules, found.push(next)) <==> are_root_rules(
            product,
            rules,
            found,
        )),
        next matches Some(entry) ==> (are_root_rules(product, rules.push(rule), found.push(next)) ==> {
            &&& are_root_rules(product, rules, found)
            &&& rule.always_apply && rule.is_agents_md
            &&& rule.content == entry.content && rule.slug == entry.slug && rule.path == entry.path
            &&& rule.scope == entry.scope && rule.kind == entry.kind
            &&& ends(rule.description@, root_rules(product)[found.len() as int])
        }),
        next is Some ==> !are_root_rules(product, Seq::empty(), found.push(next)),
{
    assert(found.push(next).drop_last() =~= found);
    assert(rules.push(rule).drop_last() =~= rules);
    if let Some(entry) = next {
        let name = root_rules(product)[found.len() as int];
        if is_root_rule(rule, entry, name) {
            let text = rule.description@;
            assert(text.subrange(text.len() - name.len(), text.len() as int) =~= name);
        }
    }
}

} // verus!
