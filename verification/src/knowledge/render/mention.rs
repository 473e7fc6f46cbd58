//! What the text of the knowledge says of the project's tree: nothing, where the
//! project has none.

use crate::knowledge::render::{
    assembled, full_text, has_project, heading, index_line, label_of, note_text, notes_of, place_of,
    rendered, sections_of, skill_line, Place, Sections, NOTE_BODY_CAP, SKILL_DESC_CAP,
};
use crate::knowledge::{Entry, Scope};
use crate::text::{first_chars, occurs, occurs_at, trimmed, trimmed_end, trimmed_start};
use vstd::prelude::*;
use vstd::string::*;

verus! {

/// How the heading names the project's tree.
pub open spec fn project_tree() -> Seq<char> {
    ".agents/ project"@
}

/// An entry that does not name the project's tree itself.
pub open spec fn is_silent(base: Seq<char>, entry: Entry) -> bool {
    &&& !occurs(label_of(base, entry.path@), project_tree())
    &&& !occurs(entry.slug@, project_tree())
    &&& !occurs(entry.description@, project_tree())
    &&& !occurs(entry.content@, project_tree())
    &&& entry.when_to_use matches Some(when) ==> !occurs(when@, project_tree())
    &&& entry.note_type matches Some(kind) ==> !occurs(kind@, project_tree())
}

/// A character of the name.
spec fn is_in_name(c: char) -> bool {
    ||| c == '.'
    ||| c == 'a'
    ||| c == 'g'
    ||| c == 'e'
    ||| c == 'n'
    ||| c == 't'
    ||| c == 's'
    ||| c == '/'
    ||| c == ' '
    ||| c == 'p'
    ||| c == 'r'
    ||| c == 'o'
    ||| c == 'j'
    ||| c == 'c'
}

/// Nothing that ends in the beginning of the name is completed by this text.
spec fn opens(s: Seq<char>) -> bool {
    s.len() > 0 && (!is_in_name(s[0]) || (s.len() > 1 && s[0] == ' ' && s[1] != 'p'))
}

/// This text ends in no beginning of the name.
spec fn closes(s: Seq<char>) -> bool {
    s.len() > 0 && (!is_in_name(s.last()) || (s.len() > 1 && s.last() == ' ' && s[s.len() - 2]
        != '/'))
}

/// A text that does not hold the name, and that can be appended to any such.
spec fn is_tidy(s: Seq<char>) -> bool {
    !occurs(s, project_tree()) && (s.len() == 0 || opens(s))
}

proof fn lemma_name()
    ensures
        project_tree().len() == 16,
        forall|k: int| 0 <= k < 16 ==> is_in_name(#[trigger] project_tree()[k]),
        forall|k: int| 0 <= k < 16 && k != 8 ==> #[trigger] project_tree()[k] != ' ',
        project_tree()[0] == '.',
        project_tree()[7] == '/',
        project_tree()[8] == ' ',
        project_tree()[9] == 'p',
        project_tree()[10] == 'r',
{
    reveal_strlit(".agents/ project");
}

proof fn lemma_join(a: Seq<char>, b: Seq<char>)
    requires
        !occurs(a, project_tree()),
        !occurs(b, project_tree()),
        closes(a) || opens(b) || a.len() == 0 || b.len() == 0,
    ensures
        !occurs(a + b, project_tree()),
{
    lemma_name();
    let name = project_tree();
    let whole = a + b;
    if occurs(whole, name) {
        let i = choose|i: int| occurs_at(whole, name, i);
        let cut = a.len() as int;
        assert forall|k: int| 0 <= k < 16 implies whole[i + k] == #[trigger] name[k] by {
            assert(whole.subrange(i, i + 16)[k] == name[k]);
        }
        if i + 16 <= cut {
            assert(a.subrange(i, i + 16) =~= name);
            assert(occurs_at(a, name, i));
        } else if i >= cut {
            assert(b.subrange(i - cut, i - cut + 16) =~= name);
            assert(occurs_at(b, name, i - cut));
        } else {
            let k = cut - i;
            assert(whole[i + (k - 1)] == name[k - 1]);
            assert(whole[i + k] == name[k]);
            assert(a.last() == name[k - 1]);
            assert(b[0] == name[k]);
            if closes(a) {
                assert(k == 9);
                assert(whole[i + 7] == name[7]);
                assert(a[a.len() - 2] == '/');
            } else {
                assert(k == 8);
                assert(whole[i + 9] == name[9]);
                assert(b[1] == 'p');
            }
        }
    }
}

/// A tidy text with a closed end, and any silent text behind it.
proof fn lemma_then(a: Seq<char>, piece: Seq<char>)
    requires
        is_tidy(a),
        closes(a),
        !occurs(piece, project_tree()),
    ensures
        is_tidy(a + piece),
        (a + piece).len() > 0,
{
    lemma_join(a, piece);
    assert((a + piece)[0] == a[0]);
    if a.len() > 1 {
        assert((a + piece)[1] == a[1]);
    }
}

/// Two tidy texts, one behind the other.
proof fn lemma_both(a: Seq<char>, b: Seq<char>)
    requires
        is_tidy(a),
        is_tidy(b),
    ensures
        is_tidy(a + b),
        closes(b) ==> closes(a + b),
        b.len() == 0 && closes(a) ==> closes(a + b),
{
    lemma_join(a, b);
    let whole = a + b;
    if a.len() > 0 {
        assert(whole[0] == a[0]);
        if a.len() > 1 {
            assert(whole[1] == a[1]);
        }
    } else {
        assert(whole =~= b);
    }
    if b.len() > 0 {
        assert(whole.last() == b.last());
        if b.len() > 1 {
            assert(whole[whole.len() - 2] == b[b.len() - 2]);
        }
    } else {
        assert(whole =~= a);
    }
}

proof fn lemma_dotless(s: Seq<char>)
    requires
        forall|i: int| 0 <= i < s.len() ==> #[trigger] s[i] != '.',
    ensures
        !occurs(s, project_tree()),
{
    lemma_name();
    if occurs(s, project_tree()) {
        let i = choose|i: int| occurs_at(s, project_tree(), i);
        assert(s.subrange(i, i + 16)[0] == '.');
        assert(s[i] == '.');
    }
}

proof fn lemma_part(s: Seq<char>, from: int, to: int)
    requires
        0 <= from <= to <= s.len(),
        !occurs(s, project_tree()),
    ensures
        !occurs(s.subrange(from, to), project_tree()),
{
    let part = s.subrange(from, to);
    let name = project_tree();
    if occurs(part, name) {
        let i = choose|i: int| occurs_at(part, name, i);
        assert(s.subrange(from + i, from + i + name.len()) =~= part.subrange(i, i + name.len()));
        assert(occurs_at(s, name, from + i));
    }
}

proof fn lemma_trimmed_start(s: Seq<char>)
    requires
        !occurs(s, project_tree()),
    ensures
        !occurs(trimmed_start(s), project_tree()),
    decreases s.len(),
{
    if s.len() > 0 {
        lemma_part(s, 1, s.len() as int);
        if crate::text::is_space(s[0]) {
            lemma_trimmed_start(s.subrange(1, s.len() as int));
        }
    }
}

proof fn lemma_trimmed_end(s: Seq<char>)
    requires
        !occurs(s, project_tree()),
    ensures
        !occurs(trimmed_end(s), project_tree()),
    decreases s.len(),
{
    if s.len() > 0 {
        lemma_part(s, 0, s.len() - 1);
        assert(s.subrange(0, s.len() - 1) =~= s.drop_last());
        if crate::text::is_space(s.last()) {
            lemma_trimmed_end(s.drop_last());
        }
    }
}

proof fn lemma_first_chars(s: Seq<char>, count: int)
    requires
        0 <= count,
        !occurs(s, project_tree()),
    ensures
        !occurs(first_chars(s, count), project_tree()),
{
    if s.len() > count {
        lemma_part(s, 0, count);
        assert(s.subrange(0, count) =~= s.take(count));
    }
}

proof fn lemma_full_text(base: Seq<char>, entry: Entry)
    requires
        is_silent(base, entry),
    ensures
        is_tidy(full_text(base, entry)),
        closes(full_text(base, entry)),
{
    reveal_strlit("\n#### ");
    reveal_strlit("\n");
    lemma_dotless("\n#### "@);
    lemma_dotless("\n"@);
    lemma_trimmed_start(entry.content@);
    lemma_trimmed_end(trimmed_start(entry.content@));
    let label = label_of(base, entry.path@);
    lemma_then("\n#### "@, label);
    lemma_both("\n#### "@ + label, "\n"@);
    lemma_then("\n#### "@ + label + "\n"@, trimmed(entry.content@));
    lemma_both("\n#### "@ + label + "\n"@ + trimmed(entry.content@), "\n"@);
}

proof fn lemma_index_line(base: Seq<char>, entry: Entry)
    requires
        is_silent(base, entry),
    ensures
        is_tidy(index_line(base, entry)),
        closes(index_line(base, entry)),
{
    reveal_strlit("- ");
    reveal_strlit(" — ");
    reveal_strlit("\n");
    lemma_dotless("- "@);
    lemma_dotless(" — "@);
    lemma_dotless("\n"@);
    let label = label_of(base, entry.path@);
    lemma_then("- "@, label);
    lemma_both("- "@ + label, " — "@);
    lemma_then("- "@ + label + " — "@, entry.description@);
    lemma_both("- "@ + label + " — "@ + entry.description@, "\n"@);
}

proof fn lemma_skill_line(base: Seq<char>, entry: Entry)
    requires
        is_silent(base, entry),
    ensures
        is_tidy(skill_line(entry)),
{
    reveal_strlit("\n- ");
    reveal_strlit(": ");
    reveal_strlit(" (use when: ");
    reveal_strlit(")");
    lemma_dotless("\n- "@);
    lemma_dotless(": "@);
    lemma_dotless(" (use when: "@);
    lemma_dotless(")"@);
    let about = first_chars(entry.description@, SKILL_DESC_CAP as int);
    lemma_first_chars(entry.description@, SKILL_DESC_CAP as int);
    lemma_then("\n- "@, entry.slug@);
    lemma_both("\n- "@ + entry.slug@, ": "@);
    lemma_then("\n- "@ + entry.slug@ + ": "@, about);
    if let Some(when) = entry.when_to_use {
        lemma_then(" (use when: "@, when@);
        lemma_both(" (use when: "@ + when@, ")"@);
        lemma_both(
            "\n- "@ + entry.slug@ + ": "@ + about,
            " (use when: "@ + when@ + ")"@,
        );
    }
}

proof fn lemma_note_text(base: Seq<char>, entry: Entry)
    requires
        is_silent(base, entry),
    ensures
        is_tidy(note_text(entry)),
        closes(note_text(entry)),
{
    reveal_strlit("\n#### [");
    reveal_strlit("note");
    reveal_strlit("] ");
    reveal_strlit(" (");
    reveal_strlit("project");
    reveal_strlit("personal");
    reveal_strlit(")\n");
    reveal_strlit("\n");
    lemma_dotless("\n#### ["@);
    lemma_dotless("note"@);
    lemma_dotless("] "@);
    lemma_dotless(" ("@);
    lemma_dotless("project"@);
    lemma_dotless("personal"@);
    lemma_dotless(")\n"@);
    lemma_dotless("\n"@);
    let kind = match entry.note_type {
        Some(t) => t@,
        None => "note"@,
    };
    let body = first_chars(entry.content@, NOTE_BODY_CAP as int);
    lemma_first_chars(entry.content@, NOTE_BODY_CAP as int);
    let a = "\n#### ["@ + kind;
    lemma_then("\n#### ["@, kind);
    let b = a + "] "@;
    lemma_both(a, "] "@);
    let c = b + entry.description@;
    lemma_then(b, entry.description@);
    let d = c + " ("@;
    lemma_both(c, " ("@);
    let e = d + entry.scope.name();
    lemma_then(d, entry.scope.name());
    let f = e + ")\n"@;
    lemma_both(e, ")\n"@);
    let g = f + body;
    lemma_then(f, body);
    lemma_both(g, "\n"@);
}

spec fn is_closed(s: Seq<char>) -> bool {
    is_tidy(s) && (s.len() == 0 || closes(s))
}

proof fn lemma_sections(base: Seq<char>, entries: Seq<Entry>, trusted: bool, hits: Seq<bool>)
    requires
        forall|i: int|
            0 <= i < entries.len() ==> (#[trigger] entries[i]).scope != Scope::Project && is_silent(
                base,
                entries[i],
            ),
    ensures
        ({
            let sections = sections_of(base, entries, trusted, hits);
            &&& is_closed(sections.rules)
            &&& is_closed(sections.curated)
            &&& is_closed(sections.index)
            &&& is_tidy(sections.skills)
        }),
    decreases entries.len(),
{
    if entries.len() == 0 {
        lemma_dotless(Seq::<char>::empty());
    } else {
        let init = entries.drop_last();
        let entry = entries[entries.len() - 1];
        assert forall|i: int| 0 <= i < init.len() implies (#[trigger] init[i]).scope
            != Scope::Project && is_silent(base, init[i]) by {
            assert(init[i] == entries[i]);
        }
        lemma_sections(base, init, trusted, hits);
        let before = sections_of(base, init, trusted, hits);
        assert(is_silent(base, entry));
        match place_of(entry, trusted, hits[entries.len() - 1]) {
            Place::Gated => {},
            Place::Curated => {
                lemma_full_text(base, entry);
                lemma_both(before.curated, full_text(base, entry));
            },
            Place::Rule => {
                lemma_full_text(base, entry);
                lemma_both(before.rules, full_text(base, entry));
            },
            Place::Index => {
                lemma_index_line(base, entry);
                lemma_both(before.index, index_line(base, entry));
            },
            Place::Note => {},
            Place::Skill => {
                lemma_skill_line(base, entry);
                lemma_both(before.skills, skill_line(entry));
            },
        }
    }
}

proof fn lemma_notes(base: Seq<char>, entries: Seq<Entry>, selected: Seq<usize>)
    requires
        forall|i: int| 0 <= i < entries.len() ==> is_silent(base, #[trigger] entries[i]),
        forall|k: int| 0 <= k < selected.len() ==> #[trigger] selected[k] < entries.len(),
    ensures
        is_closed(notes_of(entries, selected)),
    decreases selected.len(),
{
    if selected.len() == 0 {
        lemma_dotless(Seq::<char>::empty());
    } else {
        let init = selected.drop_last();
        assert forall|k: int| 0 <= k < init.len() implies #[trigger] init[k] < entries.len() by {
            assert(init[k] == selected[k]);
        }
        lemma_notes(base, entries, init);
        let last = selected[selected.len() - 1];
        lemma_note_text(base, entries[last as int]);
        lemma_both(notes_of(entries, init), note_text(entries[last as int]));
    }
}

proof fn lemma_heading()
    ensures
        is_tidy(heading(false)),
        closes(heading(false)),
{
    lemma_name();
    reveal_strlit("\n\n## Knowledge (~/.agents/ personal)\n");
    let s = heading(false);
    if occurs(s, project_tree()) {
        let i = choose|i: int| occurs_at(s, project_tree(), i);
        assert(s.subrange(i, i + 16)[0] == '.');
        assert(s.subrange(i, i + 16)[10] == 'r');
        assert(s[i] == '.');
        assert(s[i + 10] == 'r');
        assert(i == 17);
    }
}

proof fn lemma_titles()
    ensures
        is_tidy("\n### Rules (always applied)\n"@),
        is_tidy("\n### Knowledge index (read these files on demand with the read tool)\n"@),
        is_tidy(
            "\n### Skills (load with the skill tool when the task matches; do not reload with identical args)\n"@,
        ),
        is_tidy("\n"@),
{
    reveal_strlit("\n### Rules (always applied)\n");
    reveal_strlit("\n### Knowledge index (read these files on demand with the read tool)\n");
    reveal_strlit(
        "\n### Skills (load with the skill tool when the task matches; do not reload with identical args)\n",
    );
    reveal_strlit("\n");
    lemma_dotless("\n### Rules (always applied)\n"@);
    lemma_dotless("\n### Knowledge index (read these files on demand with the read tool)\n"@);
    lemma_dotless(
        "\n### Skills (load with the skill tool when the task matches; do not reload with identical args)\n"@,
    );
    lemma_dotless("\n"@);
}

proof fn lemma_assembled(sections: Sections, notes: Seq<char>)
    requires
        is_closed(sections.rules),
        is_closed(sections.curated),
        is_closed(sections.index),
        is_tidy(sections.skills),
        is_closed(notes),
    ensures
        !occurs(assembled(false, sections, notes), project_tree()),
{
    lemma_heading();
    lemma_titles();
    let head = heading(false);
    let rules = "\n### Rules (always applied)\n"@;
    lemma_both(head, rules);
    lemma_both(head + rules, sections.rules);
    let ruled = if sections.rules.len() == 0 {
        head
    } else {
        head + rules + sections.rules
    };
    lemma_both(ruled, notes);
    let noted = ruled + notes;
    let index = "\n### Knowledge index (read these files on demand with the read tool)\n"@;
    lemma_both(noted, index);
    lemma_both(noted + index, sections.curated);
    lemma_both(noted + index + sections.curated, sections.index);
    let indexed = if sections.curated.len() == 0 && sections.index.len() == 0 {
        noted
    } else {
        noted + index + sections.curated + sections.index
    };
    let skills =
        "\n### Skills (load with the skill tool when the task matches; do not reload with identical args)\n"@;
    lemma_both(indexed, skills);
    lemma_both(indexed + skills, sections.skills);
    lemma_both(indexed + skills + sections.skills, "\n"@);
}

/// Where the project has no entries the text does not name its tree, whatever is
/// personal. What an entry says itself is another matter: one that holds the very
/// words is quoted.
pub proof fn law_empty_project_is_not_named(
    base: Seq<char>,
    entries: Seq<Entry>,
    trusted: bool,
    hits: Seq<bool>,
    selected: Seq<usize>,
)
    requires
        forall|i: int|
            0 <= i < entries.len() ==> (#[trigger] entries[i]).scope != Scope::Project && is_silent(
                base,
                entries[i],
            ),
        forall|k: int| 0 <= k < selected.len() ==> #[trigger] selected[k] < entries.len(),
    ensures
        rendered(base, entries, trusted, hits, selected) matches Some(text) ==> !occurs(
            text,
            project_tree(),
        ),
{
    assert(!has_project(entries));
    lemma_sections(base, entries, trusted, hits);
    lemma_notes(base, entries, selected);
    lemma_assembled(
        sections_of(base, entries, trusted, hits),
        notes_of(entries, selected),
    );
}

} // verus!
