//! Writing entries: notes, and the switch that turns an entry off.

use crate::knowledge::{is_note_type, known_note_type, slug_of, slugify, Entry, Scope};
use crate::knowledge::store::paths::{join_path, joined_path, strip_base, stripped};
use crate::text::{
    cat2, cat3, cat4, cat7, ends, lemma_parts_nonempty, parts_of, split, starts, starts_with, str_eq, trim, trimmed, views,
};
use vstd::prelude::*;
use vstd::string::*;

pub mod guard;
pub mod move_entry;
pub mod paths;
pub mod tree;

verus! {

/// A note that is ready to be written.
#[derive(Debug, PartialEq, Eq)]
pub struct NoteFile {
    pub name: String,
    pub body: String,
}

pub open spec fn note_body(note_type: Seq<char>, description: Seq<char>, content: Seq<char>, today: Seq<char>) -> Seq<
    char,
> {
    "---\nnote-type: "@ + (if is_note_type(note_type) {
        note_type
    } else {
        "note"@
    }) + "\ndescription: "@ + trimmed(description) + "\ndate: "@ + today + "\n---\n\n"@ + trimmed(
        content,
    ) + "\n"@
}

/// The file of a note. Its name is the slug that was asked for, else that of the
/// description: the same matter goes to the same file.
pub fn add(
    slug: Option<&str>,
    note_type: &str,
    description: &str,
    content: &str,
    today: &str,
) -> (r: Result<NoteFile, String>)
    ensures
        if trimmed(description@).len() == 0 {
            r matches Err(e) && e@ == "missing description"@
        } else {
            r matches Ok(file) && {
                &&& file.name@ == slug_of(
                    match slug {
                        Some(s) => s@,
                        None => trimmed(description@),
                    },
                ) + ".md"@
                &&& file.body@ == note_body(note_type@, description@, content@, today@)
            }
        },
{
    let kind = if known_note_type(note_type) {
        note_type
    } else {
        "note"
    };
    let about = trim(description);
    if about.as_str().is_empty() {
        return Err("missing description".to_owned());
    }
    let slug = match slug {
        Some(s) => slugify(s),
        None => slugify(about.as_str()),
    };
    let text = trim(content);
    let head = cat7(
        "---\nnote-type: ",
        kind,
        "\ndescription: ",
        about.as_str(),
        "\ndate: ",
        today,
        "\n---\n\n",
    );
    let body = cat3(head.as_str(), text.as_str(), "\n");
    Ok(NoteFile { name: cat2(slug.as_str(), ".md"), body })
}

/// All entries in the order of the scan: rule files in the root, the project's
/// tree, the personal tree. Nothing is hidden.
pub fn list(roots: Vec<Entry>, project: Vec<Entry>, personal: Vec<Entry>) -> (r: Vec<Entry>)
    ensures
        r@ == roots@ + project@ + personal@,
{
    let mut all = roots;
    let mut project = project;
    let mut personal = personal;
    all.append(&mut project);
    all.append(&mut personal);
    all
}

pub open spec fn is_called(entry: Entry, scope: Scope, slug: Seq<char>) -> bool {
    entry.scope == scope && entry.slug@ == slug
}

/// The first entry of this scope and slug.
pub open spec fn place_of(entries: Seq<Entry>, scope: Scope, slug: Seq<char>) -> Option<int>
    decreases entries.len(),
{
    if entries.len() == 0 {
        None
    } else {
        match place_of(entries.drop_last(), scope, slug) {
            Some(i) => Some(i),
            None => if is_called(entries.last(), scope, slug) {
                Some(entries.len() - 1)
            } else {
                None
            },
        }
    }
}

/// The entry that is meant by a slug: the one of this very name, else the one of
/// the name that it would be written under.
pub open spec fn lookup(entries: Seq<Entry>, scope: Scope, slug: Seq<char>) -> Option<int> {
    match place_of(entries, scope, slug) {
        Some(i) => Some(i),
        None => place_of(entries, scope, slug_of(slug)),
    }
}

proof fn lemma_place_stays(entries: Seq<Entry>, scope: Scope, slug: Seq<char>, n: int)
    requires
        0 <= n <= entries.len(),
        place_of(entries.take(n), scope, slug) is Some,
    ensures
        place_of(entries, scope, slug) == place_of(entries.take(n), scope, slug),
    decreases entries.len() - n,
{
    if n < entries.len() {
        assert(entries.take(n + 1).drop_last() =~= entries.take(n));
        lemma_place_stays(entries, scope, slug, n + 1);
    } else {
        assert(entries.take(n) =~= entries);
    }
}

fn find_place(entries: &Vec<Entry>, scope: Scope, slug: &str) -> (r: Option<usize>)
    ensures
        match r {
            Some(i) => i < entries@.len() && place_of(entries@, scope, slug@) == Some(i as int),
            None => place_of(entries@, scope, slug@) is None,
        },
{
    let mut i: usize = 0;
    assert(entries@.take(0) =~= Seq::<Entry>::empty());
    while i < entries.len()
        invariant
            i <= entries@.len(),
            place_of(entries@.take(i as int), scope, slug@) is None,
        decreases entries@.len() - i,
    {
        assert(entries@.take(i + 1).drop_last() =~= entries@.take(i as int));
        if entries[i].scope == scope && str_eq(entries[i].slug.as_str(), slug) {
            proof {
                lemma_place_stays(entries@, scope, slug@, i + 1);
            }
            return Some(i);
        }
        i = i + 1;
    }
    assert(entries@.take(i as int) =~= entries@);
    None
}

pub open spec fn not_found(scope: Scope, slug: Seq<char>) -> Seq<char> {
    "not found: "@ + scope.name() + "/"@ + slug
}

/// The place of the entry that is meant by a slug.
pub fn find_entry(entries: &Vec<Entry>, scope: Scope, slug: &str) -> (r: Result<usize, String>)
    ensures
        match lookup(entries@, scope, slug@) {
            Some(i) => r matches Ok(at) && at == i && i < entries@.len(),
            None => r matches Err(e) && e@ == not_found(scope, slug@),
        },
{
    if let Some(i) = find_place(entries, scope, slug) {
        return Ok(i);
    }
    let normalized = slugify(slug);
    match find_place(entries, scope, normalized.as_str()) {
        Some(i) => Ok(i),
        None => Err(cat4("not found: ", scope.as_str(), "/", slug)),
    }
}

/// What is moved or deleted with an entry: the directory of a skill, else the
/// file.
pub fn target_of(entry: &Entry) -> (r: &String)
    ensures
        r@ == target_in(*entry),
{
    if entry.dir.as_str().is_empty() {
        &entry.path
    } else {
        &entry.dir
    }
}

pub open spec fn target_in(entry: Entry) -> Seq<char> {
    if entry.dir@.len() > 0 {
        entry.dir@
    } else {
        entry.path@
    }
}

/// What is thrown away with an entry.
pub fn remove(entries: &Vec<Entry>, scope: Scope, slug: &str) -> (r: Result<String, String>)
    ensures
        match lookup(entries@, scope, slug@) {
            Some(i) => r matches Ok(target) && target@ == target_in(entries@[i]),
            None => r matches Err(e) && e@ == not_found(scope, slug@),
        },
{
    match find_entry(entries, scope, slug) {
        Ok(i) => Ok(target_of(&entries[i]).clone()),
        Err(e) => Err(e),
    }
}

/// The root of a scope's tree: below the working directory, or at home.
pub open spec fn root_of(scope: Scope, workdir: Seq<char>, home: Seq<char>) -> Seq<char> {
    match scope {
        Scope::Project => joined_path(workdir, ".agents"@),
        Scope::Personal => joined_path(home, ".agents"@),
    }
}

pub fn scope_root(scope: Scope, workdir: &str, home: &str) -> (r: String)
    ensures
        r@ == root_of(scope, workdir@, home@),
{
    match scope {
        Scope::Project => join_path(workdir, ".agents"),
        Scope::Personal => join_path(home, ".agents"),
    }
}

/// From where to where an entry is moved.
#[derive(Debug)]
pub struct MovePlan {
    pub source: String,
    pub destination: String,
}

/// The move of an entry to the other scope: it keeps its way down from the root.
/// Whatever lies at the destination stays: the move is made only where there is
/// nothing.
pub fn move_entry(
    entries: &Vec<Entry>,
    scope: Scope,
    workdir: &str,
    home: &str,
    slug: &str,
    to: Scope,
) -> (r: Result<MovePlan, String>)
    ensures
        if scope == to {
            r matches Err(e) && e@ == "scope 相同"@
        } else {
            match lookup(entries@, scope, slug@) {
                None => r matches Err(e) && e@ == not_found(scope, slug@),
                Some(i) => {
                    let source = target_in(entries@[i]);
                    if entries@[i].is_agents_md {
                        r matches Err(e) && e@
                            == "root interoperability rule cannot move between scopes"@
                    } else {
                        match stripped(source, root_of(scope, workdir@, home@)) {
                            None => r matches Err(e) && e@ == "source is outside scope root: "@
                                + source,
                            Some(relative) => r matches Ok(plan) && plan.source@ == source
                                && plan.destination@ == joined_path(
                                root_of(to, workdir@, home@),
                                relative,
                            ),
                        }
                    }
                },
            }
        },
{
    if scope == to {
        return Err("scope 相同".to_owned());
    }
    let at = match find_entry(entries, scope, slug) {
        Ok(i) => i,
        Err(e) => return Err(e),
    };
    if entries[at].is_agents_md {
        return Err("root interoperability rule cannot move between scopes".to_owned());
    }
    let source = target_of(&entries[at]).clone();
    let source_root = scope_root(scope, workdir, home);
    let destination_root = scope_root(to, workdir, home);
    match strip_base(source.as_str(), source_root.as_str()) {
        None => Err(cat2("source is outside scope root: ", source.as_str())),
        Some(relative) => {
            let destination = join_path(destination_root.as_str(), relative.as_str());
            Ok(MovePlan { source, destination })
        },
    }
}

/// Without the carriage return at its end, where it has one.
pub open spec fn without_return(line: Seq<char>) -> Seq<char> {
    if line.len() > 0 && line.last() == '\r' {
        line.drop_last()
    } else {
        line
    }
}

/// The lines of a text: a line break ends one, and a carriage return before it
/// belongs to it.
pub open spec fn lines_of(text: Seq<char>) -> Seq<Seq<char>> {
    let parts = parts_of(text, '\n');
    let whole = parts.drop_last().map_values(|line: Seq<char>| without_return(line));
    if parts.last().len() == 0 {
        whole
    } else {
        whole.push(parts.last())
    }
}

fn drop_return(line: &str) -> (r: String)
    ensures
        r@ == without_return(line@),
{
    let chars = crate::text::chars_of(line);
    let len: usize = chars.len();
    if len > 0 && chars[len - 1] == '\r' {
        let r = crate::text::string_of(chars.as_slice(), 0, len - 1);
        assert(r@ =~= line@.drop_last());
        r
    } else {
        line.to_owned()
    }
}

fn split_lines(text: &str) -> (r: Vec<String>)
    ensures
        views(r@) == lines_of(text@),
{
    let parts = split(text, '\n');
    let ghost all = parts_of(text@, '\n');
    let last: usize = parts.len() - 1;
    let mut out: Vec<String> = Vec::new();
    let mut i: usize = 0;
    let ghost whole = all.drop_last().map_values(|line: Seq<char>| without_return(line));
    assert(views(out@) =~= whole.take(0));
    while i < last
        invariant
            i <= last,
            last + 1 == parts@.len(),
            all == views(parts@),
            whole == all.drop_last().map_values(|line: Seq<char>| without_return(line)),
            views(out@) == whole.take(i as int),
        decreases last - i,
    {
        let line = drop_return(parts[i].as_str());
        let ghost l = line@;
        let ghost before = out@;
        out.push(line);
        assert(views(out@) =~= views(before).push(l));
        assert(whole.take(i + 1) =~= whole.take(i as int).push(l));
        i = i + 1;
    }
    assert(whole.take(i as int) =~= whole);
    assert(views(parts@).last() == parts@[last as int]@);
    if !parts[last].as_str().is_empty() {
        let ghost before = out@;
        out.push(parts[last].clone());
        assert(views(out@) =~= views(before).push(all.last()));
    }
    out
}

/// Lines, each with a line break behind it.
pub open spec fn text_of(lines: Seq<Seq<char>>) -> Seq<char>
    decreases lines.len(),
{
    if lines.len() == 0 {
        Seq::empty()
    } else {
        text_of(lines.drop_last()) + lines.last() + "\n"@
    }
}

/// The lines that were written so far, whether they end inside the header, and
/// whether the header had the switch.
#[verifier::ext_equal]
pub struct Edit {
    pub out: Seq<Seq<char>>,
    pub in_header: bool,
    pub seen: bool,
}

impl Edit {
    pub open spec fn start() -> Edit {
        Edit { out: Seq::empty(), in_header: false, seen: false }
    }

    /// One more line; `first` says that it is the first one.
    pub open spec fn with(self, line: Seq<char>, first: bool, enabled: bool) -> Edit {
        if first && line == "---"@ {
            Edit { out: self.out.push(line), in_header: true, ..self }
        } else if self.in_header && line == "---"@ {
            let closed = if !self.seen && !enabled {
                self.out.push("enabled: false"@)
            } else {
                self.out
            };
            Edit { out: closed.push(line), in_header: false, ..self }
        } else if self.in_header && starts(line, "enabled:"@) {
            Edit {
                out: if enabled {
                    self.out
                } else {
                    self.out.push("enabled: false"@)
                },
                seen: true,
                ..self
            }
        } else {
            Edit { out: self.out.push(line), ..self }
        }
    }
}

pub open spec fn edit(lines: Seq<Seq<char>>, enabled: bool) -> Edit
    decreases lines.len(),
{
    if lines.len() == 0 {
        Edit::start()
    } else {
        edit(lines.drop_last(), enabled).with(lines.last(), lines.len() == 1, enabled)
    }
}

/// The text of an entry with the switch set: a line in its header turns it off,
/// and its absence turns it on.
pub open spec fn switched(text: Seq<char>, enabled: bool) -> Seq<char> {
    text_of(edit(lines_of(text), enabled).out)
}

fn push_line(out: &mut Vec<String>, line: &str)
    ensures
        views(final(out)@) == views(old(out)@).push(line@),
{
    let ghost before = out@;
    out.push(line.to_owned());
    assert(views(out@) =~= views(before).push(line@));
}

pub fn set_enabled(text: &str, enabled: bool) -> (r: String)
    ensures
        r@ == switched(text@, enabled),
{
    let lines = split_lines(text);
    let ghost all = lines_of(text@);
    let mut out: Vec<String> = Vec::new();
    let mut in_header = false;
    let mut seen = false;
    let mut i: usize = 0;
    assert(all.take(0) =~= Seq::<Seq<char>>::empty());
    assert(views(out@) =~= Seq::<Seq<char>>::empty());
    while i < lines.len()
        invariant
            i <= lines@.len(),
            all == views(lines@),
            edit(all.take(i as int), enabled) == (Edit { out: views(out@), in_header, seen }),
        decreases lines@.len() - i,
    {
        assert(all.take(i + 1).drop_last() =~= all.take(i as int));
        assert(all.take(i + 1).last() == lines@[i as int]@);
        let line = lines[i].as_str();
        if i == 0 && str_eq(line, "---") {
            in_header = true;
            push_line(&mut out, line);
        } else if in_header && str_eq(line, "---") {
            if !seen && !enabled {
                push_line(&mut out, "enabled: false");
            }
            in_header = false;
            push_line(&mut out, line);
        } else if in_header && starts_with(line, "enabled:") {
            seen = true;
            if !enabled {
                push_line(&mut out, "enabled: false");
            }
        } else {
            push_line(&mut out, line);
        }
        i = i + 1;
    }
    assert(all.take(i as int) =~= all);
    let mut text_out: String = String::new();
    let ghost written = views(out@);
    let mut j: usize = 0;
    assert(written.take(0) =~= Seq::<Seq<char>>::empty());
    while j < out.len()
        invariant
            j <= out@.len(),
            written == views(out@),
            text_out@ == text_of(written.take(j as int)),
        decreases out@.len() - j,
    {
        assert(written.take(j + 1).drop_last() =~= written.take(j as int));
        text_out.append(out[j].as_str());
        text_out.append("\n");
        j = j + 1;
    }
    assert(written.take(j as int) =~= written);
    text_out
}

proof fn lemma_switch_line()
    ensures
        starts("enabled: false"@, "enabled:"@),
        "enabled: false"@ != "---"@,
        !starts("---"@, "enabled:"@),
{
    reveal_strlit("enabled: false");
    reveal_strlit("enabled:");
    reveal_strlit("---");
    assert("enabled: false"@.subrange(0, "enabled:"@.len() as int) =~= "enabled:"@);
    assert("enabled: false"@.len() != "---"@.len());
}

proof fn lemma_edit_again(lines: Seq<Seq<char>>, enabled: bool)
    ensures
        ({
            let once = edit(lines, enabled);
            let again = edit(once.out, enabled);
            &&& again.out == once.out
            &&& again.in_header == once.in_header
            &&& enabled ==> !again.seen
            &&& once.in_header && !enabled ==> again.seen == once.seen
            &&& lines.len() > 0 ==> once.out.len() > 0
            &&& once.in_header ==> once.out.len() > 0
        }),
    decreases lines.len(),
{
    lemma_switch_line();
    if lines.len() > 0 {
        let init = lines.drop_last();
        let line = lines.last();
        lemma_edit_again(init, enabled);
        let before = edit(init, enabled);
        let once = edit(lines, enabled);
        let first = lines.len() == 1;
        assert(before.out.push(line).drop_last() =~= before.out);
        let off = "enabled: false"@;
        assert(before.out.push(off).drop_last() =~= before.out);
        assert(before.out.push(off).push(line).drop_last() =~= before.out.push(off));
        if before.in_header && line == "---"@ && !first && !before.seen && !enabled {
            let mid = edit(before.out.push(off), enabled);
            assert(mid == edit(before.out, enabled).with(off, false, enabled));
            assert(mid.out =~= before.out.push(off));
        }
    }
}

proof fn lemma_edit_back(lines: Seq<Seq<char>>)
    ensures
        ({
            let off = edit(lines, false);
            let on = edit(lines, true);
            let back = edit(off.out, true);
            &&& back.out == on.out
            &&& back.in_header == off.in_header
            &&& on.in_header == off.in_header
            &&& lines.len() > 0 ==> off.out.len() > 0
        }),
    decreases lines.len(),
{
    lemma_switch_line();
    if lines.len() > 0 {
        let init = lines.drop_last();
        let line = lines.last();
        lemma_edit_back(init);
        let before = edit(init, false);
        let mark = "enabled: false"@;
        assert(before.out.push(line).drop_last() =~= before.out);
        assert(before.out.push(mark).drop_last() =~= before.out);
        assert(before.out.push(mark).push(line).drop_last() =~= before.out.push(mark));
        if before.in_header && line == "---"@ && lines.len() > 1 && !before.seen {
            let mid = edit(before.out.push(mark), true);
            assert(mid == edit(before.out, true).with(mark, false, true));
        }
    }
}

/// A line as it is read: without a line break, and without a carriage return at
/// its end.
pub open spec fn is_line(line: Seq<char>) -> bool {
    !line.contains('\n') && (line.len() == 0 || line.last() != '\r')
}

/// A text none of whose lines ends in a carriage return that is not part of its
/// line break.
pub open spec fn has_plain_lines(text: Seq<char>) -> bool {
    forall|i: int|
        0 <= i < lines_of(text).len() ==> without_return(#[trigger] lines_of(text)[i])
            == lines_of(text)[i]
}

proof fn lemma_parts_grow(s: Seq<char>, word: Seq<char>, sep: char)
    requires
        !word.contains(sep),
    ensures
        parts_of(s + word, sep) == parts_of(s, sep).drop_last().push(
            parts_of(s, sep).last() + word,
        ),
    decreases word.len(),
{
    let parts = parts_of(s, sep);
    lemma_parts_nonempty(s, sep);
    if word.len() == 0 {
        assert(s + word =~= s);
        assert(parts.last() + word =~= parts.last());
        assert(parts.drop_last().push(parts.last()) =~= parts);
    } else {
        let init = word.drop_last();
        assert(!init.contains(sep)) by {
            if init.contains(sep) {
                let i = choose|i: int| 0 <= i < init.len() && init[i] == sep;
                assert(word[i] == sep);
            }
        }
        assert(word[word.len() - 1] != sep);
        lemma_parts_grow(s, init, sep);
        assert((s + word).drop_last() =~= s + init);
        let grown = parts.drop_last().push(parts.last() + init);
        assert(grown.drop_last() =~= parts.drop_last());
        assert((parts.last() + init).push(word.last()) =~= parts.last() + word);
    }
}

proof fn lemma_text_parts(lines: Seq<Seq<char>>)
    requires
        forall|i: int| 0 <= i < lines.len() ==> is_line(#[trigger] lines[i]),
    ensures
        parts_of(text_of(lines), '\n') == lines.push(Seq::empty()),
    decreases lines.len(),
{
    reveal_strlit("\n");
    let none = Seq::<char>::empty();
    if lines.len() == 0 {
        assert(lines.push(none) =~= seq![none]);
    } else {
        let init = lines.drop_last();
        assert forall|i: int| 0 <= i < init.len() implies is_line(#[trigger] init[i]) by {
            assert(init[i] == lines[i]);
        }
        lemma_text_parts(init);
        let line = lines[lines.len() - 1];
        assert(is_line(line));
        let head = text_of(init) + line;
        lemma_parts_grow(text_of(init), line, '\n');
        assert(init.push(none).drop_last() =~= init);
        assert(none + line =~= line);
        assert(init.push(line) =~= lines);
        assert(text_of(lines) =~= head.push('\n'));
        assert(head.push('\n').drop_last() =~= head);
    }
}

proof fn lemma_lines_read_back(lines: Seq<Seq<char>>)
    requires
        forall|i: int| 0 <= i < lines.len() ==> is_line(#[trigger] lines[i]),
    ensures
        lines_of(text_of(lines)) == lines,
{
    lemma_text_parts(lines);
    let parts = parts_of(text_of(lines), '\n');
    assert(parts.drop_last() =~= lines);
    let whole = lines.map_values(|line: Seq<char>| without_return(line));
    assert forall|i: int| 0 <= i < lines.len() implies whole[i] == #[trigger] lines[i] by {
        assert(is_line(lines[i]));
    }
    assert(whole =~= lines);
}

proof fn lemma_parts_without_break(s: Seq<char>)
    ensures
        forall|i: int|
            0 <= i < parts_of(s, '\n').len() ==> !(#[trigger] parts_of(s, '\n')[i]).contains('\n'),
    decreases s.len(),
{
    if s.len() > 0 {
        let init = s.drop_last();
        lemma_parts_without_break(init);
        lemma_parts_nonempty(init, '\n');
        let head = parts_of(init, '\n');
        let all = parts_of(s, '\n');
        assert forall|i: int| 0 <= i < all.len() implies !(#[trigger] all[i]).contains('\n') by {
            if i < all.len() - 1 {
                assert(all[i] == head[i]);
            } else if s.last() != '\n' {
                assert(!head[head.len() - 1].contains('\n'));
                let grown = head.last().push(s.last());
                if grown.contains('\n') {
                    let j = choose|j: int| 0 <= j < grown.len() && grown[j] == '\n';
                    if j < head.last().len() {
                        assert(head.last()[j] == '\n');
                    }
                }
            }
        }
    }
}

proof fn lemma_plain_lines(text: Seq<char>)
    requires
        has_plain_lines(text),
    ensures
        forall|i: int| 0 <= i < lines_of(text).len() ==> is_line(#[trigger] lines_of(text)[i]),
{
    let parts = parts_of(text, '\n');
    let lines = lines_of(text);
    lemma_parts_without_break(text);
    lemma_parts_nonempty(text, '\n');
    assert forall|i: int| 0 <= i < lines.len() implies is_line(#[trigger] lines[i]) by {
        assert(!parts[i].contains('\n'));
        assert(without_return(lines[i]) == lines[i]);
        if lines[i].contains('\n') {
            let j = choose|j: int| 0 <= j < lines[i].len() && lines[i][j] == '\n';
            assert(parts[i][j] == '\n');
        }
    }
}

proof fn lemma_edited_lines(lines: Seq<Seq<char>>, enabled: bool)
    requires
        forall|i: int| 0 <= i < lines.len() ==> is_line(#[trigger] lines[i]),
    ensures
        forall|i: int|
            0 <= i < edit(lines, enabled).out.len() ==> is_line(#[trigger] edit(lines, enabled).out[i]),
    decreases lines.len(),
{
    if lines.len() > 0 {
        let init = lines.drop_last();
        assert forall|i: int| 0 <= i < init.len() implies is_line(#[trigger] init[i]) by {
            assert(init[i] == lines[i]);
        }
        lemma_edited_lines(init, enabled);
        assert(is_line(lines[lines.len() - 1]));
        reveal_strlit("enabled: false");
        let mark = "enabled: false"@;
        assert(is_line(mark)) by {
            if mark.contains('\n') {
                let j = choose|j: int| 0 <= j < mark.len() && mark[j] == '\n';
            }
        }
        let before = edit(init, enabled).out;
        let out = edit(lines, enabled).out;
        assert forall|i: int| 0 <= i < out.len() implies is_line(#[trigger] out[i]) by {
            if i < before.len() {
                assert(out[i] == before[i]);
            }
        }
    }
}

/// Setting the switch twice is setting it once.
pub proof fn law_switch_is_idempotent(text: Seq<char>, enabled: bool)
    requires
        has_plain_lines(text),
    ensures
        switched(switched(text, enabled), enabled) == switched(text, enabled),
{
    let lines = lines_of(text);
    lemma_plain_lines(text);
    lemma_edited_lines(lines, enabled);
    lemma_lines_read_back(edit(lines, enabled).out);
    lemma_edit_again(lines, enabled);
}

/// An entry that was turned off and on again reads like one that was turned on.
pub proof fn law_turning_on_undoes_turning_off(text: Seq<char>)
    requires
        has_plain_lines(text),
    ensures
        switched(switched(text, false), true) == switched(text, true),
{
    let lines = lines_of(text);
    lemma_plain_lines(text);
    lemma_edited_lines(lines, false);
    lemma_lines_read_back(edit(lines, false).out);
    lemma_edit_back(lines);
}

proof fn lemma_no_header(lines: Seq<Seq<char>>, enabled: bool)
    requires
        lines.len() == 0 || lines[0] != "---"@,
    ensures
        edit(lines, enabled) == (Edit { out: lines, in_header: false, seen: false }),
    decreases lines.len(),
{
    if lines.len() > 0 {
        lemma_no_header(lines.drop_last(), enabled);
        assert(lines.drop_last().push(lines.last()) =~= lines);
    }
}

/// Without a header there is no switch: the lines stay as they are.
pub proof fn law_no_header_no_change(text: Seq<char>, enabled: bool)
    requires
        lines_of(text).len() == 0 || lines_of(text)[0] != "---"@,
    ensures
        switched(text, enabled) == text_of(lines_of(text)),
{
    lemma_no_header(lines_of(text), enabled);
}

/// What stands behind the header is not touched.
pub proof fn law_body_is_kept(lines: Seq<Seq<char>>, line: Seq<char>, enabled: bool)
    requires
        lines.len() > 0,
        !edit(lines, enabled).in_header,
    ensures
        edit(lines.push(line), enabled).out == edit(lines, enabled).out.push(line),
        !edit(lines.push(line), enabled).in_header,
{
    assert(lines.push(line).drop_last() =~= lines);
}

/// A new note's file says its type, description and date in its header, and behind
/// that its content; an unknown type is that of a plain note.
pub proof fn law_note_file_holds_the_note(
    note_type: Seq<char>,
    description: Seq<char>,
    content: Seq<char>,
    today: Seq<char>,
)
    ensures
        ({
            let body = note_body(note_type, description, content, today);
            let named = if note_type == "correction"@ || note_type == "convention"@ || note_type
                == "pitfall"@ || note_type == "preference"@ {
                note_type
            } else {
                "note"@
            };
            &&& starts(
                body,
                "---\nnote-type: "@ + named + "\ndescription: "@ + trimmed(description) + "\ndate: "@
                    + today + "\n---\n"@,
            )
            &&& ends(body, "\n\n"@ + trimmed(content) + "\n"@)
        }),
{
    reveal_strlit("\n---\n\n");
    reveal_strlit("\n---\n");
    reveal_strlit("\n\n");
    let body = note_body(note_type, description, content, today);
    let named = if is_note_type(note_type) {
        note_type
    } else {
        "note"@
    };
    let head = "---\nnote-type: "@ + named + "\ndescription: "@ + trimmed(description)
        + "\ndate: "@ + today + "\n---\n"@;
    let tail = "\n\n"@ + trimmed(content) + "\n"@;
    assert("\n---\n\n"@ =~= "\n---\n"@ + seq!['\n']);
    assert("\n\n"@ =~= seq!['\n', '\n']);
    assert(body.subrange(0, head.len() as int) =~= head);
    assert(body.subrange(body.len() - tail.len(), body.len() as int) =~= tail);
}

proof fn lemma_place(entries: Seq<Entry>, scope: Scope, slug: Seq<char>)
    ensures
        match place_of(entries, scope, slug) {
            Some(i) => 0 <= i < entries.len() && entries[i].scope == scope && entries[i].slug@ == slug
                && forall|j: int|
                0 <= j < i ==> !((#[trigger] entries[j]).scope == scope && entries[j].slug@ == slug),
            None => forall|j: int|
                0 <= j < entries.len() ==> !((#[trigger] entries[j]).scope == scope
                    && entries[j].slug@ == slug),
        },
    decreases entries.len(),
{
    if entries.len() > 0 {
        let init = entries.drop_last();
        lemma_place(init, scope, slug);
        assert forall|j: int| 0 <= j < init.len() implies #[trigger] entries[j] == init[j] by {}
    }
}

/// An entry is found by its own name in its own scope, the first of that name; only
/// where no entry has the name as it was given is it looked for by its slug. What
/// is not found is not there.
pub proof fn law_entries_are_found_by_name(entries: Seq<Entry>, scope: Scope, name: Seq<char>)
    ensures
        match lookup(entries, scope, name) {
            Some(i) => {
                &&& 0 <= i < entries.len()
                &&& entries[i].scope == scope
                &&& entries[i].slug@ == name || entries[i].slug@ == slug_of(name)
                &&& forall|j: int|
                    0 <= j < entries.len() && (#[trigger] entries[j]).scope == scope
                        && entries[j].slug@ == name ==> entries[i].slug@ == name && i <= j
                &&& forall|j: int|
                    0 <= j < i ==> !((#[trigger] entries[j]).scope == scope && entries[j].slug@
                        == entries[i].slug@)
            },
            None => forall|j: int|
                0 <= j < entries.len() ==> !((#[trigger] entries[j]).scope == scope && (
                entries[j].slug@ == name || entries[j].slug@ == slug_of(name))),
        },
{
    lemma_place(entries, scope, name);
    lemma_place(entries, scope, slug_of(name));
}

/// What an entry is on disk: its directory where it has one, and else its file. A
/// scope's entries are under the project or under the home.
pub proof fn law_entries_have_their_places(entry: Entry, workdir: Seq<char>, home: Seq<char>)
    ensures
        entry.dir@.len() > 0 ==> target_in(entry) == entry.dir@,
        entry.dir@.len() == 0 ==> target_in(entry) == entry.path@,
        root_of(Scope::Project, workdir, home) == joined_path(workdir, ".agents"@),
        root_of(Scope::Personal, workdir, home) == joined_path(home, ".agents"@),
{
}

/// A line of the header that says whether the entry is on.
pub open spec fn says_enabled(line: Seq<char>) -> bool {
    starts(line, "enabled:"@)
}

proof fn lemma_header(head: Seq<Seq<char>>, enabled: bool)
    requires
        forall|i: int| 0 <= i < head.len() ==> #[trigger] head[i] != "---"@,
    ensures
        ({
            let e = edit(seq!["---"@] + head, enabled);
            &&& e.in_header
            &&& e.out.len() > 0 && e.out[0] == "---"@
            &&& e.seen <==> exists|i: int| 0 <= i < head.len() && says_enabled(#[trigger] head[i])
            &&& enabled ==> forall|i: int| 0 <= i < e.out.len() ==> !says_enabled(#[trigger] e.out[i])
            &&& !enabled && e.seen ==> e.out.contains("enabled: false"@)
            &&& !enabled ==> forall|i: int|
                0 <= i < e.out.len() && says_enabled(#[trigger] e.out[i]) ==> e.out[i]
                    == "enabled: false"@
            &&& forall|line: Seq<char>|
                !says_enabled(line) && line != "---"@ ==> (#[trigger] e.out.contains(line)
                    <==> head.contains(line))
        }),
    decreases head.len(),
{
    reveal_strlit("---");
    reveal_strlit("enabled:");
    assert("---"@.len() == 3 && "---"@[0] == '-');
    assert("enabled:"@.len() == 8 && "enabled:"@[0] == 'e');
    assert(!says_enabled("---"@));
    let lines = seq!["---"@] + head;
    let e = edit(lines, enabled);
    if head.len() == 0 {
        reveal_with_fuel(edit, 2);
        assert(lines =~= seq!["---"@]);
        assert(lines.drop_last() =~= Seq::<Seq<char>>::empty());
        assert(lines.last() == "---"@);
        assert(e.out =~= seq!["---"@]);
        assert forall|line: Seq<char>| !says_enabled(line) && line != "---"@ implies (
        #[trigger] e.out.contains(line) <==> head.contains(line)) by {
            if e.out.contains(line) {
                let k = choose|k: int| 0 <= k < e.out.len() && e.out[k] == line;
                assert(e.out[0] == "---"@);
            }
        }
    } else {
        let init = head.drop_last();
        let last = head.last();
        assert forall|i: int| 0 <= i < init.len() implies #[trigger] init[i] != "---"@ by {
            assert(init[i] == head[i]);
        }
        lemma_header(init, enabled);
        let before = edit(seq!["---"@] + init, enabled);
        assert(lines.drop_last() =~= seq!["---"@] + init);
        assert(lines.last() == last);
        assert(head[head.len() - 1] == last);
        assert(last != "---"@);
        assert(e == before.with(last, false, enabled));
        assert(e.seen <==> exists|i: int| 0 <= i < head.len() && says_enabled(#[trigger] head[i])) by {
            if before.seen {
                let i = choose|i: int| 0 <= i < init.len() && says_enabled(#[trigger] init[i]);
                assert(head[i] == init[i]);
            }
            if exists|i: int| 0 <= i < head.len() && says_enabled(#[trigger] head[i]) {
                let i = choose|i: int| 0 <= i < head.len() && says_enabled(#[trigger] head[i]);
                if i < init.len() {
                    assert(init[i] == head[i]);
                }
            }
        }
        reveal_strlit("enabled: false");
        assert("enabled: false"@.subrange(0, 8) =~= "enabled:"@);
        assert(says_enabled("enabled: false"@));
        if !enabled && e.seen {
            if before.seen {
                let k = choose|k: int| 0 <= k < before.out.len() && before.out[k] == "enabled: false"@;
                assert(e.out[k] == "enabled: false"@);
            } else {
                assert(e.out.last() == "enabled: false"@);
            }
        }
        assert forall|line: Seq<char>| !says_enabled(line) && line != "---"@ implies (
        #[trigger] e.out.contains(line) <==> head.contains(line)) by {
            assert(before.out.contains(line) <==> init.contains(line));
            if e.out.contains(line) {
                let k = choose|k: int| 0 <= k < e.out.len() && e.out[k] == line;
                if k < before.out.len() {
                    assert(before.out[k] == line);
                    let i = choose|i: int| 0 <= i < init.len() && init[i] == line;
                    assert(head[i] == line);
                } else {
                    assert(head[head.len() - 1] == line);
                }
            }
            if head.contains(line) {
                let i = choose|i: int| 0 <= i < head.len() && head[i] == line;
                if i < init.len() {
                    assert(init[i] == line);
                    assert(init.contains(line));
                    let k = choose|k: int| 0 <= k < before.out.len() && before.out[k] == line;
                    assert(e.out[k] == line);
                } else {
                    assert(e.out.last() == line);
                }
            }
        }
    }
}

/// Behind the switch the header says what was set: turned off it holds the line
/// that says so and no other of its sort, turned on it holds none. Its other lines
/// are all there, and no new ones.
pub proof fn law_header_says_what_was_set(head: Seq<Seq<char>>, enabled: bool)
    requires
        forall|i: int| 0 <= i < head.len() ==> #[trigger] head[i] != "---"@,
    ensures
        ({
            let e = edit((seq!["---"@] + head).push("---"@), enabled);
            &&& !e.in_header
            &&& enabled ==> forall|i: int| 0 <= i < e.out.len() ==> !says_enabled(#[trigger] e.out[i])
            &&& !enabled ==> e.out.contains("enabled: false"@)
            &&& !enabled ==> forall|i: int|
                0 <= i < e.out.len() && says_enabled(#[trigger] e.out[i]) ==> e.out[i]
                    == "enabled: false"@
            &&& forall|line: Seq<char>|
                !says_enabled(line) && line != "---"@ ==> (#[trigger] e.out.contains(line)
                    <==> head.contains(line))
            &&& e.out[0] == "---"@ && e.out.last() == "---"@
        }),
{
    reveal_strlit("---");
    reveal_strlit("enabled:");
    reveal_strlit("enabled: false");
    assert("---"@.len() == 3 && "---"@[0] == '-');
    assert("enabled:"@.len() == 8 && "enabled:"@[0] == 'e');
    assert(!says_enabled("---"@));
    assert("enabled: false"@.subrange(0, 8) =~= "enabled:"@);
    lemma_header(head, enabled);
    let open = seq!["---"@] + head;
    let lines = open.push("---"@);
    let before = edit(open, enabled);
    let e = edit(lines, enabled);
    assert(lines.drop_last() =~= open);
    assert(lines.last() == "---"@);
    assert(lines.len() > 1);
    assert(e == before.with("---"@, false, enabled));
    if !enabled {
        if before.seen {
            let k = choose|k: int| 0 <= k < before.out.len() && before.out[k] == "enabled: false"@;
            assert(e.out[k] == "enabled: false"@);
        } else {
            assert(e.out[before.out.len() as int] == "enabled: false"@);
        }
    }
    assert forall|line: Seq<char>| !says_enabled(line) && line != "---"@ implies (
    #[trigger] e.out.contains(line) <==> head.contains(line)) by {
        assert(before.out.contains(line) <==> head.contains(line));
        if e.out.contains(line) {
            let k = choose|k: int| 0 <= k < e.out.len() && e.out[k] == line;
            assert(k < before.out.len());
            assert(before.out[k] == line);
        }
        if before.out.contains(line) {
            let k = choose|k: int| 0 <= k < before.out.len() && before.out[k] == line;
            assert(e.out[k] == line);
        }
    }
}

} // verus!
