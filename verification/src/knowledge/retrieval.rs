//! Which notes go into a prompt: words, conflicts between notes, and their rank.

use crate::knowledge::{is_cjk, is_ideograph, is_word, is_word_char};
use crate::text::{
    ascii_lower, ascii_upper, chars_of, each_once, holds, lemma_precedes_total, lemma_precedes_transitive, less,
    once_each, parts_of, precedes, split, str_eq, string_of, to_ascii_lowercase, views,
};
use vstd::prelude::*;

verus! {

/// The number of notes that a query brings in.
pub const NOTE_TOP_K: usize = 8;

/// The number of notes that come in without a query.
pub const RECENT_TOP_K: usize = 3;

/// An ideograph, or a character of a word.
pub open spec fn is_of_kind(c: char, ideographs: bool) -> bool {
    if ideographs {
        is_ideograph(c)
    } else {
        is_word(c)
    }
}

fn of_kind(c: char, ideographs: bool) -> (r: bool)
    ensures
        r == is_of_kind(c, ideographs),
{
    if ideographs {
        is_cjk(c)
    } else {
        is_word_char(c)
    }
}

/// How many characters of the start are of one kind: words, or ideographs.
pub open spec fn run_len(text: Seq<char>, ideographs: bool) -> int
    decreases text.len(),
{
    if text.len() == 0 {
        0
    } else if is_of_kind(text[0], ideographs) {
        1 + run_len(text.subrange(1, text.len() as int), ideographs)
    } else {
        0
    }
}

pub proof fn lemma_run_len(text: Seq<char>, ideographs: bool)
    ensures
        0 <= run_len(text, ideographs) <= text.len(),
    decreases text.len(),
{
    if text.len() > 0 {
        lemma_run_len(text.subrange(1, text.len() as int), ideographs);
    }
}

/// The tokens of a run of ideographs: each two neighbours, or the one alone.
pub open spec fn pairs_of(run: Seq<char>) -> Seq<Seq<char>> {
    if run.len() <= 1 {
        seq![run]
    } else {
        Seq::new((run.len() - 1) as nat, |i: int| seq![run[i], run[i + 1]])
    }
}

/// The tokens of a text: words in small letters, and pairs of ideographs.
pub open spec fn tokens(text: Seq<char>) -> Seq<Seq<char>>
    decreases text.len(),
{
    if text.len() == 0 {
        Seq::empty()
    } else if is_word(text[0]) {
        proof {
            lemma_run_len(text.subrange(1, text.len() as int), false);
        }
        let n = run_len(text, false);
        seq![text.take(n).map_values(|c: char| ascii_lower(c))] + tokens(
            text.subrange(n, text.len() as int),
        )
    } else if is_ideograph(text[0]) {
        proof {
            lemma_run_len(text.subrange(1, text.len() as int), true);
        }
        let n = run_len(text, true);
        pairs_of(text.take(n)) + tokens(text.subrange(n, text.len() as int))
    } else {
        tokens(text.subrange(1, text.len() as int))
    }
}

fn run_end(chars: &[char], from: usize, ideographs: bool) -> (r: usize)
    requires
        from <= chars@.len(),
    ensures
        r == from + run_len(chars@.subrange(from as int, chars@.len() as int), ideographs),
        from <= r <= chars@.len(),
{
    let mut at: usize = from;
    let ghost start = chars@.subrange(from as int, chars@.len() as int);
    assert(start =~= chars@.subrange(at as int, chars@.len() as int));
    while at < chars.len() && of_kind(chars[at], ideographs)
        invariant
            from <= at <= chars@.len(),
            run_len(start, ideographs) == at - from + run_len(
                chars@.subrange(at as int, chars@.len() as int),
                ideographs,
            ),
        decreases chars@.len() - at,
    {
        let ghost rest = chars@.subrange(at as int, chars@.len() as int);
        assert(rest[0] == chars@[at as int]);
        assert(rest.subrange(1, rest.len() as int) =~= chars@.subrange(
            at + 1,
            chars@.len() as int,
        ));
        at = at + 1;
    }
    assert(at < chars@.len() ==> chars@.subrange(at as int, chars@.len() as int)[0]
        == chars@[at as int]);
    at
}

fn push_pairs(out: &mut Vec<String>, chars: &[char], from: usize, to: usize)
    requires
        from < to <= chars@.len(),
    ensures
        views(final(out)@) == views(old(out)@) + pairs_of(chars@.subrange(from as int, to as int)),
{
    let ghost before = views(out@);
    let ghost run = chars@.subrange(from as int, to as int);
    if to - from == 1 {
        let one = string_of(chars, from, to);
        let ghost was = out@;
        out.push(one);
        assert(views(out@) =~= before + seq![run]);
        return;
    }
    let mut i: usize = from;
    assert(before + pairs_of(run).take(0) =~= before);
    while i + 1 < to
        invariant
            from <= i,
            i + 1 <= to <= chars@.len(),
            to - from >= 2,
            run == chars@.subrange(from as int, to as int),
            views(out@) == before + pairs_of(run).take(i - from),
        decreases to - i,
    {
        let pair = string_of(chars, i, i + 2);
        assert(pair@ =~= seq![run[i - from], run[i - from + 1]]);
        let ghost was = out@;
        let ghost p = pair@;
        out.push(pair);
        assert(views(out@) =~= views(was).push(p));
        assert(before + pairs_of(run).take(i + 1 - from) =~= (before + pairs_of(run).take(
            i - from,
        )).push(p));
        i = i + 1;
    }
    assert(pairs_of(run).take(i - from) =~= pairs_of(run));
}

pub fn tokenize(text: &str) -> (r: Vec<String>)
    ensures
        views(r@) == tokens(text@),
{
    let chars = chars_of(text);
    let mut out: Vec<String> = Vec::new();
    let mut i: usize = 0;
    assert(chars@.subrange(0, chars@.len() as int) =~= text@);
    assert(views(out@) + tokens(text@) =~= tokens(text@));
    while i < chars.len()
        invariant
            i <= chars@.len(),
            chars@ == text@,
            tokens(text@) == views(out@) + tokens(chars@.subrange(i as int, chars@.len() as int)),
        decreases chars@.len() - i,
    {
        let ghost rest = chars@.subrange(i as int, chars@.len() as int);
        let ghost before = views(out@);
        assert(rest[0] == chars@[i as int]);
        if is_word_char(chars[i]) {
            let end = run_end(chars.as_slice(), i, false);
            proof {
                lemma_run_len(rest.subrange(1, rest.len() as int), false);
            }
            let word = string_of(chars.as_slice(), i, end);
            let lower = to_ascii_lowercase(word.as_str());
            let ghost l = lower@;
            let ghost was = out@;
            out.push(lower);
            proof {
                let n = end - i;
                assert(rest.take(n) =~= word@);
                assert(rest.subrange(n, rest.len() as int) =~= chars@.subrange(
                    end as int,
                    chars@.len() as int,
                ));
                assert(views(out@) =~= before.push(l));
                assert(before + (seq![l] + tokens(rest.subrange(n, rest.len() as int))) =~= views(
                    out@,
                ) + tokens(rest.subrange(n, rest.len() as int)));
            }
            i = end;
        } else if is_cjk(chars[i]) {
            let end = run_end(chars.as_slice(), i, true);
            proof {
                lemma_run_len(rest.subrange(1, rest.len() as int), true);
            }
            push_pairs(&mut out, chars.as_slice(), i, end);
            proof {
                let n = end - i;
                assert(rest.take(n) =~= chars@.subrange(i as int, end as int));
                assert(rest.subrange(n, rest.len() as int) =~= chars@.subrange(
                    end as int,
                    chars@.len() as int,
                ));
                assert(before + (pairs_of(rest.take(n)) + tokens(
                    rest.subrange(n, rest.len() as int),
                )) =~= views(out@) + tokens(rest.subrange(n, rest.len() as int)));
            }
            i = end;
        } else {
            assert(rest.subrange(1, rest.len() as int) =~= chars@.subrange(
                i + 1,
                chars@.len() as int,
            ));
            i = i + 1;
        }
    }
    assert(chars@.subrange(i as int, chars@.len() as int) =~= Seq::<char>::empty());
    assert(views(out@) + Seq::<Seq<char>>::empty() =~= views(out@));
    out
}

/// A small letter or a digit.
pub open spec fn is_small(c: char) -> bool {
    is_word(c) && !('A' <= c <= 'Z')
}

/// A word in small letters and digits, or one or two ideographs.
pub open spec fn is_token(token: Seq<char>) -> bool {
    &&& token.len() > 0
    &&& {
        ||| forall|i: int| 0 <= i < token.len() ==> is_small(#[trigger] token[i])
        ||| token.len() <= 2 && forall|i: int|
            0 <= i < token.len() ==> is_ideograph(#[trigger] token[i])
    }
}

/// The text in small letters, as far as they are ASCII.
pub open spec fn lowered(text: Seq<char>) -> Seq<char> {
    text.map_values(|c: char| ascii_lower(c))
}

/// The text in capital letters, as far as they are ASCII.
pub open spec fn uppered(text: Seq<char>) -> Seq<char> {
    text.map_values(|c: char| ascii_upper(c))
}

proof fn lemma_run(text: Seq<char>, ideographs: bool)
    ensures
        forall|i: int|
            0 <= i < run_len(text, ideographs) ==> is_of_kind(#[trigger] text[i], ideographs),
        text.len() > 0 && is_of_kind(text[0], ideographs) ==> run_len(text, ideographs) > 0,
    decreases text.len(),
{
    lemma_run_len(text, ideographs);
    if text.len() > 0 {
        let rest = text.subrange(1, text.len() as int);
        lemma_run_len(rest, ideographs);
        lemma_run(rest, ideographs);
        assert forall|i: int| 0 <= i < run_len(text, ideographs) implies is_of_kind(
            #[trigger] text[i],
            ideographs,
        ) by {
            if i > 0 {
                assert(rest[i - 1] == text[i]);
            }
        }
    }
}

/// A run ends where the text does, or where what follows begins with another
/// kind.
proof fn lemma_run_before(a: Seq<char>, b: Seq<char>, ideographs: bool)
    requires
        b.len() > 0,
        !is_of_kind(b[0], ideographs),
    ensures
        run_len(a + b, ideographs) == run_len(a, ideographs),
    decreases a.len(),
{
    if a.len() == 0 {
        assert(a + b =~= b);
    } else {
        let rest = a.subrange(1, a.len() as int);
        lemma_run_before(rest, b, ideographs);
        assert((a + b).subrange(1, (a + b).len() as int) =~= rest + b);
        assert((a + b)[0] == a[0]);
    }
}

proof fn lemma_run_lowered(text: Seq<char>, ideographs: bool)
    ensures
        run_len(lowered(text), ideographs) == run_len(text, ideographs),
    decreases text.len(),
{
    if text.len() > 0 {
        let rest = text.subrange(1, text.len() as int);
        lemma_run_lowered(rest, ideographs);
        assert(lowered(text).subrange(1, text.len() as int) =~= lowered(rest));
    }
}

/// The run that a text begins with, and what is behind it.
proof fn lemma_first_run(text: Seq<char>)
    requires
        text.len() > 0,
    ensures
        is_word(text[0]) ==> 0 < run_len(text, false) <= text.len(),
        is_ideograph(text[0]) ==> 0 < run_len(text, true) <= text.len(),
{
    lemma_run_len(text, false);
    lemma_run_len(text, true);
    lemma_run(text, false);
    lemma_run(text, true);
}

/// Every token is a word in small letters and digits, or one or two ideographs.
pub proof fn law_tokens_have_their_shape(text: Seq<char>)
    ensures
        forall|k: int| 0 <= k < tokens(text).len() ==> is_token(#[trigger] tokens(text)[k]),
    decreases text.len(),
{
    if text.len() > 0 {
        lemma_first_run(text);
        lemma_run(text, false);
        lemma_run(text, true);
        let all = tokens(text);
        if is_word(text[0]) {
            let n = run_len(text, false);
            let word = lowered(text.take(n));
            let rest = text.subrange(n, text.len() as int);
            law_tokens_have_their_shape(rest);
            assert(text.take(n).map_values(|c: char| ascii_lower(c)) =~= word);
            assert(all =~= seq![word] + tokens(rest));
            assert forall|i: int| 0 <= i < word.len() implies is_small(#[trigger] word[i]) by {
                assert(is_of_kind(text[i], false));
            }
            assert forall|k: int| 0 <= k < all.len() implies is_token(#[trigger] all[k]) by {
                if k > 0 {
                    assert(all[k] == tokens(rest)[k - 1]);
                }
            }
        } else if is_ideograph(text[0]) {
            let n = run_len(text, true);
            let run = text.take(n);
            let rest = text.subrange(n, text.len() as int);
            law_tokens_have_their_shape(rest);
            assert(all =~= pairs_of(run) + tokens(rest));
            assert forall|i: int| 0 <= i < run.len() implies is_ideograph(#[trigger] run[i]) by {
                assert(is_of_kind(text[i], true));
            }
            assert forall|k: int| 0 <= k < all.len() implies is_token(#[trigger] all[k]) by {
                if k < pairs_of(run).len() {
                    assert(all[k] == pairs_of(run)[k]);
                } else {
                    assert(all[k] == tokens(rest)[k - pairs_of(run).len()]);
                }
            }
        } else {
            let rest = text.subrange(1, text.len() as int);
            law_tokens_have_their_shape(rest);
            assert(all == tokens(rest));
        }
        assert(forall|k: int| 0 <= k < all.len() ==> is_token(#[trigger] all[k]));
    }
}

proof fn lemma_lowered_tokens(text: Seq<char>)
    ensures
        tokens(lowered(text)) == tokens(text),
    decreases text.len(),
{
    if text.len() > 0 {
        let low = lowered(text);
        lemma_first_run(text);
        lemma_run(text, true);
        lemma_run_lowered(text, false);
        lemma_run_lowered(text, true);
        assert(low[0] == ascii_lower(text[0]));
        if is_word(text[0]) {
            let n = run_len(text, false);
            let rest = text.subrange(n, text.len() as int);
            lemma_lowered_tokens(rest);
            assert(low.subrange(n, low.len() as int) =~= lowered(rest));
            assert(low.take(n).map_values(|c: char| ascii_lower(c)) =~= text.take(n).map_values(
                |c: char| ascii_lower(c),
            ));
        } else if is_ideograph(text[0]) {
            let n = run_len(text, true);
            let rest = text.subrange(n, text.len() as int);
            lemma_lowered_tokens(rest);
            assert(low.subrange(n, low.len() as int) =~= lowered(rest));
            assert forall|i: int| 0 <= i < n implies low.take(n)[i] == text.take(n)[i] by {
                assert(is_of_kind(text[i], true));
            }
            assert(low.take(n) =~= text.take(n));
        } else {
            let rest = text.subrange(1, text.len() as int);
            lemma_lowered_tokens(rest);
            assert(low.subrange(1, low.len() as int) =~= lowered(rest));
        }
    }
}

/// Whether a letter is small or capital does not matter to the tokens.
pub proof fn law_case_does_not_matter(text: Seq<char>)
    ensures
        tokens(lowered(text)) == tokens(text),
        tokens(uppered(text)) == tokens(text),
{
    lemma_lowered_tokens(text);
    lemma_lowered_tokens(uppered(text));
    assert(lowered(uppered(text)) =~= lowered(text));
}

/// Two texts with a separator between them have the tokens of the one and, after
/// those, of the other: no token reaches from one into the other.
pub proof fn law_texts_are_tokenized_apart(a: Seq<char>, separator: char, b: Seq<char>)
    requires
        !is_word(separator),
        !is_ideograph(separator),
    ensures
        tokens(a + seq![separator] + b) == tokens(a) + tokens(b),
    decreases a.len(),
{
    let tail = seq![separator] + b;
    let whole = a + seq![separator] + b;
    assert(whole =~= a + tail);
    if a.len() == 0 {
        assert(whole.subrange(1, whole.len() as int) =~= b);
        assert(tokens(a) + tokens(b) =~= tokens(b));
    } else {
        lemma_first_run(a);
        lemma_run_before(a, tail, false);
        lemma_run_before(a, tail, true);
        assert(whole[0] == a[0]);
        if is_word(a[0]) {
            let n = run_len(a, false);
            let rest = a.subrange(n, a.len() as int);
            law_texts_are_tokenized_apart(rest, separator, b);
            assert(whole.subrange(n, whole.len() as int) =~= rest + seq![separator] + b);
            assert(whole.take(n) =~= a.take(n));
            let word = a.take(n).map_values(|c: char| ascii_lower(c));
            assert(seq![word] + (tokens(rest) + tokens(b)) =~= (seq![word] + tokens(rest))
                + tokens(b));
        } else if is_ideograph(a[0]) {
            let n = run_len(a, true);
            let rest = a.subrange(n, a.len() as int);
            law_texts_are_tokenized_apart(rest, separator, b);
            assert(whole.subrange(n, whole.len() as int) =~= rest + seq![separator] + b);
            assert(whole.take(n) =~= a.take(n));
            let pairs = pairs_of(a.take(n));
            assert(pairs + (tokens(rest) + tokens(b)) =~= (pairs + tokens(rest)) + tokens(b));
        } else {
            let rest = a.subrange(1, a.len() as int);
            law_texts_are_tokenized_apart(rest, separator, b);
            assert(whole.subrange(1, whole.len() as int) =~= rest + seq![separator] + b);
        }
    }
}

/// The tokens of a note, each one once.
#[derive(Debug)]
pub struct TokenSet {
    items: Vec<String>,
}

impl View for TokenSet {
    type V = Seq<Seq<char>>;

    closed spec fn view(&self) -> Seq<Seq<char>> {
        views(self.items@)
    }
}

impl TokenSet {
    pub fn of(tokens: Vec<String>) -> (r: TokenSet)
        ensures
            r@ == each_once(views(tokens@)),
    {
        TokenSet { items: once_each(tokens) }
    }
}

/// How many items of `a` are in `b`.
pub open spec fn common(a: Seq<Seq<char>>, b: Seq<Seq<char>>) -> nat
    decreases a.len(),
{
    if a.len() == 0 {
        0
    } else if b.contains(a.last()) {
        common(a.drop_last(), b) + 1
    } else {
        common(a.drop_last(), b)
    }
}

fn count_common(a: &TokenSet, b: &TokenSet) -> (r: usize)
    ensures
        r == common(a@, b@),
        r <= a@.len(),
{
    let ghost all = views(a.items@);
    let mut count: usize = 0;
    let mut i: usize = 0;
    assert(all.take(0) =~= Seq::<Seq<char>>::empty());
    while i < a.items.len()
        invariant
            i <= a.items@.len(),
            all == views(a.items@),
            count == common(all.take(i as int), b@),
            count <= i,
        decreases a.items@.len() - i,
    {
        assert(all.take(i + 1).drop_last() =~= all.take(i as int));
        if holds(&b.items, a.items[i].as_str()) {
            count = count + 1;
        }
        i = i + 1;
    }
    assert(all.take(i as int) =~= all);
    count
}

/// Two notes on the same matter: three fifths of their tokens, or more, are
/// common to both.
pub open spec fn same_matter(a: Seq<Seq<char>>, b: Seq<Seq<char>>) -> bool {
    let both = common(a, b) as int;
    both > 0 && 5 * both >= 3 * (a.len() + b.len() - both)
}

/// Which of two notes gives way, if one does: the older one of two on the same
/// matter that say different things; of the same age the later one.
pub open spec fn loser_of(
    sets: Seq<TokenSet>,
    dates: Seq<Seq<char>>,
    contents: Seq<Seq<char>>,
    i: int,
    j: int,
) -> Option<int> {
    if contents[i] == contents[j] || !same_matter(sets[i]@, sets[j]@) {
        None
    } else if precedes(dates[i], dates[j]) {
        Some(i)
    } else {
        Some(j)
    }
}

/// The losers among the pairs from `(i, j)` on, in the order of the pairs.
pub open spec fn losers_from(
    sets: Seq<TokenSet>,
    dates: Seq<Seq<char>>,
    contents: Seq<Seq<char>>,
    i: int,
    j: int,
) -> Seq<int>
    decreases sets.len() - i, sets.len() - j + 1,
{
    if i < 0 || i >= sets.len() {
        Seq::empty()
    } else if j >= sets.len() {
        losers_from(sets, dates, contents, i + 1, i + 2)
    } else {
        let rest = losers_from(sets, dates, contents, i, j + 1);
        match loser_of(sets, dates, contents, i, j) {
            Some(k) => seq![k] + rest,
            None => rest,
        }
    }
}

pub open spec fn places(list: Seq<usize>) -> Seq<int> {
    list.map_values(|n: usize| n as int)
}

/// The notes that give way, once for each note they give way to.
pub fn conflict_losers(sets: &Vec<TokenSet>, dates: &Vec<String>, contents: &Vec<String>) -> (r: Vec<
    usize,
>)
    requires
        dates@.len() >= sets@.len(),
        contents@.len() >= sets@.len(),
    ensures
        places(r@) == losers_from(sets@, views(dates@), views(contents@), 0, 1),
{
    let mut losers: Vec<usize> = Vec::new();
    let ghost whole = losers_from(sets@, views(dates@), views(contents@), 0, 1);
    let n: usize = sets.len();
    let mut i: usize = 0;
    assert(places(losers@) + whole =~= whole);
    while i < n
        invariant
            i <= n == sets@.len(),
            dates@.len() >= n,
            contents@.len() >= n,
            whole == places(losers@) + losers_from(
                sets@,
                views(dates@),
                views(contents@),
                i as int,
                i + 1,
            ),
        decreases n - i,
    {
        let mut j: usize = i + 1;
        while j < n
            invariant
                i < j <= n == sets@.len(),
                dates@.len() >= n,
                contents@.len() >= n,
                whole == places(losers@) + losers_from(
                    sets@,
                    views(dates@),
                    views(contents@),
                    i as int,
                    j as int,
                ),
            decreases n - j,
        {
            let ghost before = places(losers@);
            let ghost rest = losers_from(sets@, views(dates@), views(contents@), i as int, j + 1);
            if !str_eq(contents[i].as_str(), contents[j].as_str()) {
                let both = count_common(&sets[i], &sets[j]);
                let union: u128 = sets[i].items.len() as u128 + sets[j].items.len() as u128
                    - both as u128;
                if both > 0 && 5 * (both as u128) >= 3 * union {
                    let ghost was = losers@;
                    if less(dates[i].as_str(), dates[j].as_str()) {
                        losers.push(i);
                        assert(places(losers@) =~= before.push(i as int));
                        assert(before + (seq![i as int] + rest) =~= places(losers@) + rest);
                    } else {
                        losers.push(j);
                        assert(places(losers@) =~= before.push(j as int));
                        assert(before + (seq![j as int] + rest) =~= places(losers@) + rest);
                    }
                }
            }
            j = j + 1;
        }
        i = i + 1;
    }
    assert(places(losers@) + Seq::<int>::empty() =~= places(losers@));
    losers
}

/// A note with its score. `index` is its place among all notes.
#[derive(Debug)]
pub struct Scored {
    pub score: u64,
    pub date: String,
    pub slug: String,
    pub index: usize,
}

#[verifier::ext_equal]
pub struct ScoredView {
    pub score: u64,
    pub date: Seq<char>,
    pub slug: Seq<char>,
    pub index: usize,
}

impl View for Scored {
    type V = ScoredView;

    open spec fn view(&self) -> ScoredView {
        ScoredView { score: self.score, date: self.date@, slug: self.slug@, index: self.index }
    }
}

pub open spec fn scored_views(list: Seq<Scored>) -> Seq<ScoredView> {
    list.map_values(|s: Scored| s@)
}

/// The higher score goes first, and of two equal ones the later date.
pub open spec fn goes_before(a: ScoredView, b: ScoredView) -> bool {
    a.score > b.score || a.score == b.score && precedes(b.date, a.date)
}

/// The list with one more note: before the notes at its end that it goes before.
pub open spec fn placed(list: Seq<ScoredView>, note: ScoredView) -> Seq<ScoredView>
    decreases list.len(),
{
    if list.len() == 0 || !goes_before(note, list.last()) {
        list.push(note)
    } else {
        placed(list.drop_last(), note).push(list.last())
    }
}

/// The notes in order; equal ones keep theirs.
pub open spec fn in_order(notes: Seq<ScoredView>) -> Seq<ScoredView>
    decreases notes.len(),
{
    if notes.len() == 0 {
        Seq::empty()
    } else {
        placed(in_order(notes.drop_last()), notes.last())
    }
}

pub open spec fn ordered(list: Seq<ScoredView>) -> bool {
    forall|i: int, j: int|
        0 <= i < j < list.len() ==> !goes_before(#[trigger] list[j], #[trigger] list[i])
}

proof fn lemma_placed_at(list: Seq<ScoredView>, note: ScoredView, at: int)
    requires
        0 <= at <= list.len(),
        at == 0 || !goes_before(note, list[at - 1]),
        forall|j: int| at <= j < list.len() ==> goes_before(note, #[trigger] list[j]),
    ensures
        placed(list, note) == list.insert(at, note),
    decreases list.len(),
{
    if at == list.len() {
        assert(list.insert(at, note) =~= list.push(note));
    } else {
        assert(list.last() == list[list.len() - 1]);
        lemma_placed_at(list.drop_last(), note, at);
        assert(list.drop_last().insert(at, note).push(list.last()) =~= list.insert(at, note));
    }
}

/// What does not go before `b` does not go before what goes before `b`.
proof fn lemma_not_before(a: ScoredView, b: ScoredView, c: ScoredView)
    requires
        !goes_before(a, b),
        !goes_before(b, c),
    ensures
        !goes_before(a, c),
{
    lemma_precedes_total(a.date, b.date);
    lemma_precedes_total(b.date, c.date);
    lemma_precedes_total(a.date, c.date);
    if goes_before(a, c) {
        if a.score == b.score && b.score == c.score {
            if precedes(a.date, b.date) {
                lemma_precedes_transitive(c.date, a.date, b.date);
            }
        }
    }
}

proof fn lemma_before_excludes(a: ScoredView, b: ScoredView)
    requires
        goes_before(a, b),
    ensures
        !goes_before(b, a),
{
    lemma_precedes_total(a.date, b.date);
}

proof fn lemma_place_exists(list: Seq<ScoredView>, note: ScoredView) -> (at: int)
    requires
        ordered(list),
    ensures
        0 <= at <= list.len(),
        at == 0 || !goes_before(note, list[at - 1]),
        forall|j: int| at <= j < list.len() ==> goes_before(note, #[trigger] list[j]),
        placed(list, note) == list.insert(at, note),
    decreases list.len(),
{
    if list.len() == 0 || !goes_before(note, list.last()) {
        assert(list.insert(list.len() as int, note) =~= list.push(note));
        list.len() as int
    } else {
        let at = lemma_place_exists(list.drop_last(), note);
        assert forall|j: int| at <= j < list.len() implies goes_before(note, #[trigger] list[j]) by {
            if j < list.len() - 1 {
                assert(list.drop_last()[j] == list[j]);
            }
        }
        assert(at == 0 || list.drop_last()[at - 1] == list[at - 1]);
        lemma_placed_at(list, note, at);
        at
    }
}

proof fn lemma_placed_ordered(list: Seq<ScoredView>, note: ScoredView)
    requires
        ordered(list),
    ensures
        ordered(placed(list, note)),
{
    let at = lemma_place_exists(list, note);
    let out = list.insert(at, note);
    assert forall|i: int, j: int| 0 <= i < j < out.len() implies !goes_before(
        #[trigger] out[j],
        #[trigger] out[i],
    ) by {
        let oi = if i < at {
            i
        } else {
            i - 1
        };
        let oj = if j < at {
            j
        } else {
            j - 1
        };
        if i == at {
            lemma_before_excludes(note, list[oj]);
        } else if j == at {
            assert(out[i] == list[i]);
            if i < at - 1 {
                assert(!goes_before(list[at - 1], list[i]));
                lemma_not_before(note, list[at - 1], list[i]);
            }
        } else {
            assert(out[i] == list[oi]);
            assert(out[j] == list[oj]);
        }
    }
}

proof fn lemma_in_order(notes: Seq<ScoredView>)
    ensures
        ordered(in_order(notes)),
    decreases notes.len(),
{
    if notes.len() > 0 {
        lemma_in_order(notes.drop_last());
        lemma_placed_ordered(in_order(notes.drop_last()), notes.last());
    }
}

/// The notes whose slug comes first.
pub open spec fn first_of_slug(notes: Seq<ScoredView>) -> Seq<ScoredView>
    decreases notes.len(),
{
    if notes.len() == 0 {
        Seq::empty()
    } else {
        let head = first_of_slug(notes.drop_last());
        if exists|i: int| 0 <= i < head.len() && (#[trigger] head[i]).slug == notes.last().slug {
            head
        } else {
            head.push(notes.last())
        }
    }
}

proof fn lemma_first_of_slug(notes: Seq<ScoredView>)
    requires
        ordered(notes),
    ensures
        ordered(first_of_slug(notes)),
        forall|i: int, j: int|
            0 <= i < j < first_of_slug(notes).len() ==> (#[trigger] first_of_slug(notes)[i]).slug
                != (#[trigger] first_of_slug(notes)[j]).slug,
        forall|i: int|
            0 <= i < first_of_slug(notes).len() ==> notes.contains(
                #[trigger] first_of_slug(notes)[i],
            ),
    decreases notes.len(),
{
    if notes.len() > 0 {
        let init = notes.drop_last();
        lemma_first_of_slug(init);
        let head = first_of_slug(init);
        let out = first_of_slug(notes);
        assert forall|i: int| 0 <= i < out.len() implies notes.contains(#[trigger] out[i]) by {
            if i < head.len() {
                assert(out[i] == head[i]);
                let k = choose|k: int| 0 <= k < init.len() && init[k] == head[i];
                assert(notes[k] == head[i]);
            } else {
                assert(notes[notes.len() - 1] == notes.last());
            }
        }
        if out.len() > head.len() {
            assert forall|i: int, j: int| 0 <= i < j < out.len() implies !goes_before(
                #[trigger] out[j],
                #[trigger] out[i],
            ) by {
                assert(out[i] == head[i]);
                if j < head.len() {
                    assert(out[j] == head[j]);
                } else {
                    let k = choose|k: int| 0 <= k < init.len() && init[k] == head[i];
                    assert(notes[k] == head[i]);
                    assert(notes[notes.len() - 1] == notes.last());
                }
            }
            assert forall|i: int, j: int| 0 <= i < j < out.len() implies (#[trigger] out[i]).slug != (
            #[trigger] out[j]).slug by {
                assert(out[i] == head[i]);
                if j < head.len() {
                    assert(out[j] == head[j]);
                }
            }
        }
    }
}

/// The notes with a score.
pub open spec fn relevant(notes: Seq<ScoredView>) -> Seq<ScoredView>
    decreases notes.len(),
{
    if notes.len() == 0 {
        Seq::empty()
    } else if notes.last().score > 0 {
        relevant(notes.drop_last()).push(notes.last())
    } else {
        relevant(notes.drop_last())
    }
}

pub open spec fn at_most(list: Seq<ScoredView>, count: int) -> Seq<ScoredView> {
    if list.len() <= count {
        list
    } else {
        list.take(count)
    }
}

/// The notes that a query brings in, the best first: without a score none, and
/// one for each slug.
pub open spec fn selected(notes: Seq<ScoredView>) -> Seq<ScoredView> {
    at_most(first_of_slug(in_order(relevant(notes))), NOTE_TOP_K as int)
}

/// The notes that come in without a query: the latest ones.
pub open spec fn latest(notes: Seq<ScoredView>) -> Seq<ScoredView> {
    at_most(
        in_order(notes.map_values(|n: ScoredView| ScoredView { score: 0, ..n })),
        RECENT_TOP_K as int,
    )
}

pub open spec fn indices(list: Seq<ScoredView>) -> Seq<usize> {
    list.map_values(|n: ScoredView| n.index)
}

/// What a query brings in is in order, at most eight notes, one for each slug.
pub proof fn law_selection_is_ranked(notes: Seq<ScoredView>)
    ensures
        ordered(selected(notes)),
        selected(notes).len() <= NOTE_TOP_K,
        forall|i: int, j: int|
            0 <= i < j < selected(notes).len() ==> (#[trigger] selected(notes)[i]).slug != (
            #[trigger] selected(notes)[j]).slug,
{
    lemma_in_order(relevant(notes));
    lemma_first_of_slug(in_order(relevant(notes)));
    let all = first_of_slug(in_order(relevant(notes)));
    let out = selected(notes);
    assert forall|i: int| 0 <= i < out.len() implies #[trigger] out[i] == all[i] by {}
}

/// The order holds the notes that went into it and no other.
proof fn lemma_same_notes(notes: Seq<ScoredView>)
    ensures
        in_order(notes).len() == notes.len(),
        forall|k: int| 0 <= k < notes.len() ==> in_order(notes).contains(#[trigger] notes[k]),
        forall|i: int|
            0 <= i < in_order(notes).len() ==> notes.contains(#[trigger] in_order(notes)[i]),
    decreases notes.len(),
{
    if notes.len() > 0 {
        let init = notes.drop_last();
        let head = in_order(init);
        lemma_same_notes(init);
        lemma_in_order(init);
        let at = lemma_place_exists(head, notes.last());
        let out = in_order(notes);
        assert(out == head.insert(at, notes.last()));
        assert(out[at] == notes.last());
        assert forall|k: int| 0 <= k < notes.len() implies out.contains(#[trigger] notes[k]) by {
            if k < init.len() {
                assert(init[k] == notes[k]);
                let h = choose|h: int| 0 <= h < head.len() && head[h] == notes[k];
                assert(out[if h < at {
                    h
                } else {
                    h + 1
                }] == notes[k]);
            }
        }
        assert forall|i: int| 0 <= i < out.len() implies notes.contains(#[trigger] out[i]) by {
            if i == at {
                assert(notes[notes.len() - 1] == out[i]);
            } else {
                let h = if i < at {
                    i
                } else {
                    i - 1
                };
                assert(head[h] == out[i]);
                let k = choose|k: int| 0 <= k < init.len() && init[k] == out[i];
                assert(notes[k] == out[i]);
            }
        }
    }
}

proof fn lemma_relevant(notes: Seq<ScoredView>)
    ensures
        forall|i: int|
            0 <= i < relevant(notes).len() ==> notes.contains(#[trigger] relevant(notes)[i])
                && relevant(notes)[i].score > 0,
    decreases notes.len(),
{
    if notes.len() > 0 {
        let init = notes.drop_last();
        lemma_relevant(init);
        let out = relevant(notes);
        assert forall|i: int| 0 <= i < out.len() implies notes.contains(#[trigger] out[i])
            && out[i].score > 0 by {
            if i < relevant(init).len() {
                assert(out[i] == relevant(init)[i]);
                let k = choose|k: int| 0 <= k < init.len() && init[k] == out[i];
                assert(notes[k] == out[i]);
            } else {
                assert(notes[notes.len() - 1] == out[i]);
            }
        }
    }
}

/// What a query brings in are notes that it was given, and each has a score.
pub proof fn law_selection_is_relevant(notes: Seq<ScoredView>)
    ensures
        forall|i: int|
            0 <= i < selected(notes).len() ==> notes.contains(#[trigger] selected(notes)[i])
                && selected(notes)[i].score > 0,
{
    let kept = relevant(notes);
    let sorted = in_order(kept);
    let single = first_of_slug(sorted);
    let out = selected(notes);
    lemma_relevant(notes);
    lemma_same_notes(kept);
    lemma_in_order(kept);
    lemma_first_of_slug(sorted);
    assert forall|i: int| 0 <= i < out.len() implies notes.contains(#[trigger] out[i])
        && out[i].score > 0 by {
        assert(out[i] == single[i]);
        let s = choose|s: int| 0 <= s < sorted.len() && sorted[s] == single[i];
        let k = choose|k: int| 0 <= k < kept.len() && kept[k] == sorted[s];
        assert(kept[k] == out[i]);
    }
}

/// A note with a score is kept for ranking.
proof fn lemma_relevant_kept(notes: Seq<ScoredView>, k: int)
    requires
        0 <= k < notes.len(),
        notes[k].score > 0,
    ensures
        relevant(notes).contains(notes[k]),
    decreases notes.len(),
{
    let init = notes.drop_last();
    let out = relevant(notes);
    if k == notes.len() - 1 {
        assert(out.last() == notes[k]);
    } else {
        assert(init[k] == notes[k]);
        lemma_relevant_kept(init, k);
        let p = choose|p: int| 0 <= p < relevant(init).len() && relevant(init)[p] == notes[k];
        assert(out[p] == notes[k]);
    }
}

/// A note of an ordered list is there, or one of its slug that it does not go
/// before.
proof fn lemma_slug_is_there(list: Seq<ScoredView>, k: int) -> (p: int)
    requires
        ordered(list),
        0 <= k < list.len(),
    ensures
        0 <= p < first_of_slug(list).len(),
        first_of_slug(list)[p].slug == list[k].slug,
        first_of_slug(list)[p] == list[k] || !goes_before(list[k], first_of_slug(list)[p]),
    decreases list.len(),
{
    let init = list.drop_last();
    let head = first_of_slug(init);
    let out = first_of_slug(list);
    if k < list.len() - 1 {
        assert(init[k] == list[k]);
        let p = lemma_slug_is_there(init, k);
        assert(out[p] == head[p]);
        p
    } else if exists|i: int| 0 <= i < head.len() && (#[trigger] head[i]).slug == list.last().slug {
        let p = choose|i: int| 0 <= i < head.len() && (#[trigger] head[i]).slug == list.last().slug;
        lemma_first_of_slug(init);
        assert(init.contains(head[p]));
        let q = choose|q: int| 0 <= q < init.len() && init[q] == head[p];
        assert(list[q] == head[p]);
        p
    } else {
        assert(out.last() == list.last());
        out.len() - 1
    }
}

/// Nothing better stays out. A note with a score that a query does not bring in
/// gives way to a note of its slug that comes in, or to eight notes; whichever it
/// is, none of them has a lower score, and none with the same score is of an
/// earlier date.
pub proof fn law_nothing_better_stays_out(notes: Seq<ScoredView>, k: int)
    requires
        0 <= k < notes.len(),
        notes[k].score > 0,
        !selected(notes).contains(notes[k]),
    ensures
        ({
            let out = selected(notes);
            ||| exists|i: int|
                0 <= i < out.len() && (#[trigger] out[i]).slug == notes[k].slug && (out[i].score
                    > notes[k].score || out[i].score == notes[k].score && !precedes(
                    out[i].date,
                    notes[k].date,
                ))
            ||| out.len() == NOTE_TOP_K && forall|i: int|
                0 <= i < out.len() ==> (#[trigger] out[i]).score > notes[k].score || out[i].score
                    == notes[k].score && !precedes(out[i].date, notes[k].date)
        }),
{
    let kept = relevant(notes);
    let sorted = in_order(kept);
    let single = first_of_slug(sorted);
    let out = selected(notes);
    let note = notes[k];
    lemma_relevant_kept(notes, k);
    let r = choose|r: int| 0 <= r < kept.len() && kept[r] == note;
    lemma_same_notes(kept);
    lemma_in_order(kept);
    assert(sorted.contains(kept[r]));
    let s = choose|s: int| 0 <= s < sorted.len() && sorted[s] == note;
    let p = lemma_slug_is_there(sorted, s);
    lemma_first_of_slug(sorted);
    lemma_precedes_total(note.date, note.date);
    assert(!goes_before(note, single[p]));
    if p < out.len() {
        assert(out[p] == single[p]);
    } else {
        assert forall|i: int| 0 <= i < out.len() implies (#[trigger] out[i]).score > note.score
            || out[i].score == note.score && !precedes(out[i].date, note.date) by {
            assert(out[i] == single[i]);
            lemma_not_before(note, single[p], single[i]);
        }
    }
}

/// In the order of rank: the higher score first, of equal ones the later date, and
/// of equal dates the note that was given first.
pub open spec fn outranks(a: ScoredView, b: ScoredView) -> bool {
    ||| a.score > b.score
    ||| a.score == b.score && precedes(b.date, a.date)
    ||| a.score == b.score && a.date == b.date && a.index < b.index
}

proof fn lemma_strict_order(notes: Seq<ScoredView>)
    requires
        forall|i: int, j: int|
            0 <= i < j < notes.len() ==> (#[trigger] notes[i]).index < (#[trigger] notes[j]).index,
    ensures
        forall|i: int, j: int|
            0 <= i < j < in_order(notes).len() ==> outranks(
                #[trigger] in_order(notes)[i],
                #[trigger] in_order(notes)[j],
            ),
    decreases notes.len(),
{
    if notes.len() > 0 {
        let init = notes.drop_last();
        let note = notes.last();
        let head = in_order(init);
        lemma_strict_order(init);
        lemma_same_notes(init);
        lemma_in_order(init);
        lemma_in_order(notes);
        let at = lemma_place_exists(head, note);
        let out = in_order(notes);
        assert(out == head.insert(at, note));
        assert forall|h: int| 0 <= h < head.len() implies (#[trigger] head[h]).index
            < note.index by {
            let k = choose|k: int| 0 <= k < init.len() && init[k] == head[h];
            assert(notes[k] == head[h]);
            assert(notes[notes.len() - 1] == note);
        }
        assert forall|i: int, j: int| 0 <= i < j < out.len() implies outranks(
            #[trigger] out[i],
            #[trigger] out[j],
        ) by {
            if j == at {
                assert(out[i] == head[i]);
                assert(!goes_before(out[j], out[i]));
                lemma_precedes_total(out[i].date, out[j].date);
            } else if i == at {
                assert(out[j] == head[j - 1]);
                assert(goes_before(note, head[j - 1]));
            } else {
                let g = if i < at {
                    i
                } else {
                    i - 1
                };
                let h = if j < at {
                    j
                } else {
                    j - 1
                };
                assert(out[i] == head[g] && out[j] == head[h]);
            }
        }
    }
}

proof fn lemma_relevant_ascends(notes: Seq<ScoredView>)
    requires
        forall|i: int, j: int|
            0 <= i < j < notes.len() ==> (#[trigger] notes[i]).index < (#[trigger] notes[j]).index,
    ensures
        forall|i: int, j: int|
            0 <= i < j < relevant(notes).len() ==> (#[trigger] relevant(notes)[i]).index < (
            #[trigger] relevant(notes)[j]).index,
    decreases notes.len(),
{
    if notes.len() > 0 {
        let init = notes.drop_last();
        let out = relevant(notes);
        lemma_relevant_ascends(init);
        lemma_relevant(init);
        assert forall|i: int, j: int| 0 <= i < j < out.len() implies (#[trigger] out[i]).index < (
        #[trigger] out[j]).index by {
            assert(out[i] == relevant(init)[i]);
            if j < relevant(init).len() {
                assert(out[j] == relevant(init)[j]);
            } else {
                assert(out[j] == notes.last());
                let k = choose|k: int| 0 <= k < init.len() && init[k] == relevant(init)[i];
                assert(notes[k] == out[i]);
                assert(notes[notes.len() - 1] == out[j]);
            }
        }
    }
}

proof fn lemma_first_of_slug_ranked(list: Seq<ScoredView>)
    requires
        forall|i: int, j: int|
            0 <= i < j < list.len() ==> outranks(#[trigger] list[i], #[trigger] list[j]),
    ensures
        forall|i: int, j: int|
            0 <= i < j < first_of_slug(list).len() ==> outranks(
                #[trigger] first_of_slug(list)[i],
                #[trigger] first_of_slug(list)[j],
            ),
        forall|i: int|
            0 <= i < first_of_slug(list).len() ==> list.contains(#[trigger] first_of_slug(list)[i]),
    decreases list.len(),
{
    if list.len() > 0 {
        let init = list.drop_last();
        let head = first_of_slug(init);
        let out = first_of_slug(list);
        lemma_first_of_slug_ranked(init);
        assert forall|i: int| 0 <= i < out.len() implies list.contains(#[trigger] out[i]) by {
            if i < head.len() {
                assert(out[i] == head[i]);
                let k = choose|k: int| 0 <= k < init.len() && init[k] == head[i];
                assert(list[k] == head[i]);
            } else {
                assert(list[list.len() - 1] == out[i]);
            }
        }
        assert forall|i: int, j: int| 0 <= i < j < out.len() implies outranks(
            #[trigger] out[i],
            #[trigger] out[j],
        ) by {
            assert(out[i] == head[i]);
            if j < head.len() {
                assert(out[j] == head[j]);
            } else {
                let k = choose|k: int| 0 <= k < init.len() && init[k] == head[i];
                assert(list[k] == head[i]);
                assert(list[list.len() - 1] == out[j]);
            }
        }
    }
}

/// What comes in is in the order of rank, with a query and without one: of two
/// notes that tie, the one that was given first comes first.
pub proof fn law_ties_keep_their_order(notes: Seq<ScoredView>)
    requires
        forall|i: int, j: int|
            0 <= i < j < notes.len() ==> (#[trigger] notes[i]).index < (#[trigger] notes[j]).index,
    ensures
        forall|i: int, j: int|
            0 <= i < j < selected(notes).len() ==> outranks(
                #[trigger] selected(notes)[i],
                #[trigger] selected(notes)[j],
            ),
        forall|i: int, j: int|
            0 <= i < j < latest(notes).len() ==> outranks(
                #[trigger] latest(notes)[i],
                #[trigger] latest(notes)[j],
            ),
{
    let kept = relevant(notes);
    let sorted = in_order(kept);
    let single = first_of_slug(sorted);
    lemma_relevant_ascends(notes);
    lemma_strict_order(kept);
    lemma_first_of_slug_ranked(sorted);
    assert forall|i: int, j: int| 0 <= i < j < selected(notes).len() implies outranks(
        #[trigger] selected(notes)[i],
        #[trigger] selected(notes)[j],
    ) by {
        assert(selected(notes)[i] == single[i] && selected(notes)[j] == single[j]);
    }
    let blank = notes.map_values(|n: ScoredView| ScoredView { score: 0, ..n });
    assert forall|i: int, j: int| 0 <= i < j < blank.len() implies (#[trigger] blank[i]).index < (
    #[trigger] blank[j]).index by {
        assert(notes[i].index < notes[j].index);
    }
    lemma_strict_order(blank);
    assert forall|i: int, j: int| 0 <= i < j < latest(notes).len() implies outranks(
        #[trigger] latest(notes)[i],
        #[trigger] latest(notes)[j],
    ) by {
        assert(latest(notes)[i] == in_order(blank)[i] && latest(notes)[j] == in_order(blank)[j]);
    }
}

/// A note without its score.
pub open spec fn unscored(note: ScoredView) -> ScoredView {
    ScoredView { score: 0, ..note }
}

/// Without a query the latest notes come in, the latest first: three, or all
/// where there are fewer. They are notes that were given, and none that stays out
/// is of a later date.
pub proof fn law_latest_come_first(notes: Seq<ScoredView>)
    ensures
        latest(notes).len() == (if notes.len() < RECENT_TOP_K {
            notes.len()
        } else {
            RECENT_TOP_K as nat
        }),
        forall|i: int, j: int|
            0 <= i < j < latest(notes).len() ==> !precedes(
                (#[trigger] latest(notes)[i]).date,
                (#[trigger] latest(notes)[j]).date,
            ),
        forall|i: int|
            0 <= i < latest(notes).len() ==> exists|k: int|
                0 <= k < notes.len() && #[trigger] latest(notes)[i] == unscored(#[trigger] notes[k]),
        forall|k: int, i: int|
            0 <= k < notes.len() && 0 <= i < latest(notes).len() && !latest(notes).contains(
                unscored(#[trigger] notes[k]),
            ) ==> !precedes((#[trigger] latest(notes)[i]).date, notes[k].date),
{
    let blank = notes.map_values(|n: ScoredView| ScoredView { score: 0, ..n });
    let sorted = in_order(blank);
    let out = latest(notes);
    lemma_same_notes(blank);
    lemma_in_order(blank);
    assert forall|i: int| 0 <= i < sorted.len() implies (#[trigger] sorted[i]).score == 0 by {
        let k = choose|k: int| 0 <= k < blank.len() && blank[k] == sorted[i];
        assert(blank[k].score == 0);
    }
    assert forall|i: int, j: int| 0 <= i < j < out.len() implies !precedes(
        (#[trigger] out[i]).date,
        (#[trigger] out[j]).date,
    ) by {
        assert(out[i] == sorted[i] && out[j] == sorted[j]);
    }
    assert forall|i: int| 0 <= i < out.len() implies exists|k: int|
        0 <= k < notes.len() && #[trigger] out[i] == unscored(#[trigger] notes[k]) by {
        assert(out[i] == sorted[i]);
        let k = choose|k: int| 0 <= k < blank.len() && blank[k] == sorted[i];
        assert(out[i] == unscored(notes[k]));
    }
    assert forall|k: int, i: int|
        0 <= k < notes.len() && 0 <= i < out.len() && !out.contains(
            unscored(#[trigger] notes[k]),
        ) implies !precedes((#[trigger] out[i]).date, notes[k].date) by {
        assert(blank[k] == unscored(notes[k]));
        let p = choose|p: int| 0 <= p < sorted.len() && sorted[p] == blank[k];
        if p < out.len() {
            assert(out[p] == sorted[p]);
        }
        assert(out[i] == sorted[i]);
    }
}

fn goes_ahead(a: &Scored, b: &Scored) -> (r: bool)
    ensures
        r == goes_before(a@, b@),
{
    a.score > b.score || a.score == b.score && less(b.date.as_str(), a.date.as_str())
}

fn place(list: &mut Vec<Scored>, note: Scored)
    ensures
        scored_views(final(list)@) == placed(scored_views(old(list)@), note@),
{
    let mut at: usize = list.len();
    while at > 0 && goes_ahead(&note, &list[at - 1])
        invariant
            at <= list@.len(),
            forall|j: int| at <= j < list@.len() ==> goes_before(note@, (#[trigger] list@[j])@),
        decreases at,
    {
        at = at - 1;
    }
    let ghost n = note@;
    let ghost before = list@;
    list.insert(at, note);
    proof {
        assert forall|j: int| at <= j < scored_views(before).len() implies goes_before(
            n,
            #[trigger] scored_views(before)[j],
        ) by {
            assert(scored_views(before)[j] == before[j]@);
        }
        lemma_placed_at(scored_views(before), n, at as int);
        assert(scored_views(list@) =~= scored_views(before).insert(at as int, n));
    }
}

fn sort_notes(notes: Vec<Scored>) -> (r: Vec<Scored>)
    ensures
        scored_views(r@) == in_order(scored_views(notes@)),
{
    let mut notes = notes;
    let ghost whole = notes@;
    let ghost all = scored_views(whole);
    let count: usize = notes.len();
    let mut out: Vec<Scored> = Vec::new();
    let mut i: usize = 0;
    assert(all.take(0) =~= Seq::<ScoredView>::empty());
    assert(scored_views(out@) =~= Seq::<ScoredView>::empty());
    assert(notes@ =~= whole.subrange(0, whole.len() as int));
    while i < count
        invariant
            i <= count == whole.len(),
            all == scored_views(whole),
            notes@ == whole.subrange(i as int, whole.len() as int),
            scored_views(out@) == in_order(all.take(i as int)),
        decreases count - i,
    {
        assert(all.take(i + 1).drop_last() =~= all.take(i as int));
        assert(notes@[0] == whole[i as int]);
        let note = notes.remove(0);
        assert(note == whole[i as int]);
        place(&mut out, note);
        i = i + 1;
        assert(notes@ =~= whole.subrange(i as int, whole.len() as int));
    }
    assert(all.take(i as int) =~= all);
    out
}

fn copy_scored(note: &Scored, score: u64) -> (r: Scored)
    ensures
        r@ == (ScoredView { score, ..note@ }),
{
    Scored { score, date: note.date.clone(), slug: note.slug.clone(), index: note.index }
}

fn scored_only(notes: &Vec<Scored>) -> (r: Vec<Scored>)
    ensures
        scored_views(r@) == relevant(scored_views(notes@)),
{
    let ghost all = scored_views(notes@);
    let mut out: Vec<Scored> = Vec::new();
    let mut i: usize = 0;
    assert(all.take(0) =~= Seq::<ScoredView>::empty());
    assert(scored_views(out@) =~= Seq::<ScoredView>::empty());
    while i < notes.len()
        invariant
            i <= notes@.len(),
            all == scored_views(notes@),
            scored_views(out@) == relevant(all.take(i as int)),
        decreases notes@.len() - i,
    {
        assert(all.take(i + 1).drop_last() =~= all.take(i as int));
        if notes[i].score > 0 {
            let note = copy_scored(&notes[i], notes[i].score);
            let ghost n = note@;
            let ghost before = out@;
            out.push(note);
            assert(n =~= all[i as int]);
            assert(scored_views(out@) =~= scored_views(before).push(n));
        }
        i = i + 1;
    }
    assert(all.take(i as int) =~= all);
    out
}

fn one_per_slug(notes: Vec<Scored>) -> (r: Vec<Scored>)
    ensures
        scored_views(r@) == first_of_slug(scored_views(notes@)),
{
    let ghost all = scored_views(notes@);
    let mut out: Vec<Scored> = Vec::new();
    let mut i: usize = 0;
    assert(all.take(0) =~= Seq::<ScoredView>::empty());
    assert(scored_views(out@) =~= Seq::<ScoredView>::empty());
    while i < notes.len()
        invariant
            i <= notes@.len(),
            all == scored_views(notes@),
            scored_views(out@) == first_of_slug(all.take(i as int)),
        decreases notes@.len() - i,
    {
        assert(all.take(i + 1).drop_last() =~= all.take(i as int));
        let ghost head = scored_views(out@);
        let mut seen = false;
        let mut j: usize = 0;
        while j < out.len()
            invariant
                j <= out@.len(),
                i < notes@.len(),
                head == scored_views(out@),
                seen == exists|k: int| 0 <= k < j && (#[trigger] head[k]).slug == notes@[i as int]@.slug,
            decreases out@.len() - j,
        {
            if str_eq(out[j].slug.as_str(), notes[i].slug.as_str()) {
                seen = true;
                assert(head[j as int].slug == notes@[i as int]@.slug);
            }
            j = j + 1;
        }
        if !seen {
            let note = copy_scored(&notes[i], notes[i].score);
            let ghost n = note@;
            let ghost before = out@;
            out.push(note);
            assert(n =~= all[i as int]);
            assert(scored_views(out@) =~= scored_views(before).push(n));
        }
        i = i + 1;
    }
    assert(all.take(i as int) =~= all);
    out
}

fn first_indices(notes: Vec<Scored>, count: usize) -> (r: Vec<usize>)
    ensures
        r@ == indices(at_most(scored_views(notes@), count as int)),
{
    let to: usize = if notes.len() <= count {
        notes.len()
    } else {
        count
    };
    let mut out: Vec<usize> = Vec::new();
    let mut i: usize = 0;
    let ghost kept = at_most(scored_views(notes@), count as int);
    while i < to
        invariant
            i <= to <= notes@.len(),
            kept == at_most(scored_views(notes@), count as int),
            kept.len() == to,
            out@ == indices(kept.take(i as int)),
        decreases to - i,
    {
        assert(kept[i as int] == notes@[i as int]@);
        out.push(notes[i].index);
        i = i + 1;
        assert(out@ =~= indices(kept.take(i as int)));
    }
    assert(kept.take(i as int) =~= kept);
    out
}

/// The notes that go into a prompt, by their indices. Without a query these are
/// the latest ones; with one they go by their scores.
pub fn select_notes(notes: &Vec<Scored>, query: bool) -> (r: Vec<usize>)
    ensures
        r@ == indices(
            if query {
                selected(scored_views(notes@))
            } else {
                latest(scored_views(notes@))
            },
        ),
{
    if query {
        let kept = scored_only(notes);
        let sorted = sort_notes(kept);
        let single = one_per_slug(sorted);
        return first_indices(single, NOTE_TOP_K);
    }
    let ghost blank = scored_views(notes@).map_values(|n: ScoredView| ScoredView { score: 0, ..n });
    let mut plain: Vec<Scored> = Vec::new();
    let mut i: usize = 0;
    assert(scored_views(plain@) =~= blank.take(0));
    while i < notes.len()
        invariant
            i <= notes@.len(),
            blank == scored_views(notes@).map_values(|n: ScoredView| ScoredView { score: 0, ..n }),
            scored_views(plain@) == blank.take(i as int),
        decreases notes@.len() - i,
    {
        let note = copy_scored(&notes[i], 0);
        let ghost n = note@;
        let ghost before = plain@;
        plain.push(note);
        assert(scored_views(plain@) =~= scored_views(before).push(n));
        assert(blank.take(i + 1) =~= blank.take(i as int).push(n));
        i = i + 1;
    }
    assert(blank.take(i as int) =~= blank);
    let sorted = sort_notes(plain);
    first_indices(sorted, RECENT_TOP_K)
}

/// A number in decimal digits, with or without a plus before them.
pub open spec fn number_of(text: Seq<char>) -> Option<int> {
    let digits = if text.len() > 0 && text[0] == '+' {
        text.subrange(1, text.len() as int)
    } else {
        text
    };
    if digits.len() == 0 || !all_digits(digits) || value_of(digits) > i64::MAX {
        None
    } else {
        Some(value_of(digits))
    }
}

pub open spec fn all_digits(text: Seq<char>) -> bool {
    forall|i: int| 0 <= i < text.len() ==> '0' <= #[trigger] text[i] <= '9'
}

pub open spec fn value_of(digits: Seq<char>) -> int
    decreases digits.len(),
{
    if digits.len() == 0 {
        0
    } else {
        value_of(digits.drop_last()) * 10 + (digits.last() as int - 48)
    }
}

proof fn lemma_value_grows(digits: Seq<char>, n: int)
    requires
        0 <= n <= digits.len(),
        all_digits(digits),
    ensures
        0 <= value_of(digits.take(n)) <= value_of(digits),
    decreases digits.len(),
{
    if n == digits.len() {
        assert(digits.take(n) =~= digits);
        if n > 0 {
            assert(all_digits(digits.drop_last()));
            lemma_value_grows(digits.drop_last(), n - 1);
            assert(digits.drop_last().take(n - 1) =~= digits.drop_last());
        }
    } else {
        assert(all_digits(digits.drop_last()));
        lemma_value_grows(digits.drop_last(), n);
        assert(digits.drop_last().take(n) =~= digits.take(n));
        assert('0' <= digits.last());
    }
}

pub fn parse_number(text: &str) -> (r: Option<i64>)
    ensures
        (match r {
            Some(n) => Some(n as int),
            None => None,
        }) == number_of(text@),
        r matches Some(n) ==> n >= 0,
{
    let chars = chars_of(text);
    let from: usize = if chars.len() > 0 && chars[0] == '+' {
        1
    } else {
        0
    };
    let ghost digits = chars@.subrange(from as int, chars@.len() as int);
    assert(from == 0 ==> digits =~= text@);
    if from == chars.len() {
        return None;
    }
    let mut value: i64 = 0;
    let mut i: usize = from;
    assert(digits.take(0) =~= Seq::<char>::empty());
    while i < chars.len()
        invariant
            from <= i <= chars@.len(),
            chars@ == text@,
            digits == chars@.subrange(from as int, chars@.len() as int),
            digits == (if text@.len() > 0 && text@[0] == '+' {
                text@.subrange(1, text@.len() as int)
            } else {
                text@
            }),
            0 <= value,
            value == value_of(digits.take(i - from)),
            all_digits(digits.take(i - from)),
        decreases chars@.len() - i,
    {
        let c = chars[i];
        let ghost here = digits.take(i + 1 - from);
        assert(digits[i - from] == c);
        if c < '0' || c > '9' {
            assert(!all_digits(digits));
            return None;
        }
        let d: i64 = (c as u32 - 48) as i64;
        proof {
            assert(here.drop_last() =~= digits.take(i - from));
            assert(here.last() == c);
            assert forall|k: int| 0 <= k < here.len() implies '0' <= #[trigger] here[k] <= '9' by {
                if k < i - from {
                    assert(digits.take(i - from)[k] == here[k]);
                }
            }
        }
        if value > (i64::MAX - d) / 10 {
            proof {
                if all_digits(digits) {
                    lemma_value_grows(digits, i + 1 - from);
                    assert(value_of(here) == value * 10 + d);
                }
            }
            return None;
        }
        value = value * 10 + d;
        i = i + 1;
    }
    proof {
        assert(digits.take(i - from) =~= digits);
    }
    Some(value)
}

/// The days from the start of 1970 to a day of the calendar.
pub open spec fn days_of(year: int, month: int, day: int) -> int {
    let y = if month <= 2 {
        year - 1
    } else {
        year
    };
    let era = y / 400;
    let yoe = y - era * 400;
    let doy = (153 * ((month + 9) % 12) + 2) / 5 + day - 1;
    era * 146097 + yoe * 365 + yoe / 4 - yoe / 100 + doy - 719468
}

/// The days of a date; what is no date has none. What stands behind a third dash
/// does not count.
pub open spec fn date_days(text: Seq<char>) -> Option<int> {
    let parts = parts_of(text, '-');
    if parts.len() < 3 {
        None
    } else {
        match (number_of(parts[0]), number_of(parts[1]), number_of(parts[2])) {
            (Some(year), Some(month), Some(day)) => Some(days_of(year, month, day)),
            _ => None,
        }
    }
}

pub fn parse_date_days(text: &str) -> (r: Option<i128>)
    ensures
        (match r {
            Some(n) => Some(n as int),
            None => None,
        }) == date_days(text@),
        r matches Some(n) ==> -1_000_000 <= n <= 0x1000_0000_0000_0000_0000,
{
    let parts = split(text, '-');
    assert(views(parts@) == parts_of(text@, '-'));
    if parts.len() < 3 {
        return None;
    }
    let year: i128 = match parse_number(parts[0].as_str()) {
        Some(n) => n as i128,
        None => return None,
    };
    let month: i128 = match parse_number(parts[1].as_str()) {
        Some(n) => n as i128,
        None => return None,
    };
    let day: i128 = match parse_number(parts[2].as_str()) {
        Some(n) => n as i128,
        None => return None,
    };
    let y: i128 = if month <= 2 {
        year - 1
    } else {
        year
    };
    let era: i128 = if y >= 0 {
        y / 400
    } else {
        -1
    };
    let yoe: i128 = y - era * 400;
    let doy: i128 = (153 * ((month + 9) % 12) + 2) / 5 + day - 1;
    Some(era * 146097 + yoe * 365 + yoe / 4 - yoe / 100 + doy - 719468)
}

/// A year with a twenty-ninth of February.
pub open spec fn is_leap(year: int) -> bool {
    year % 4 == 0 && (year % 100 != 0 || year % 400 == 0)
}

pub open spec fn month_len(year: int, month: int) -> int {
    if month == 2 {
        if is_leap(year) {
            29
        } else {
            28
        }
    } else if month == 4 || month == 6 || month == 9 || month == 11 {
        30
    } else {
        31
    }
}

/// The years of an era before a given one, and the days in them.
proof fn lemma_step_of_year(year: int, era: int, yoe: int)
    requires
        0 <= year,
        year - 1 == era * 400 + yoe,
        0 <= yoe < 400,
    ensures
        (year - 1) / 400 == era,
        year / 400 == (if yoe == 399 {
            era + 1
        } else {
            era
        }),
        is_leap(year) == ((yoe + 1) % 4 == 0 && ((yoe + 1) % 100 != 0 || yoe == 399)),
{
    assert(year % 4 == (yoe + 1) % 4);
    assert(year % 100 == (yoe + 1) % 100);
    assert(year % 400 == (yoe + 1) % 400);
}

proof fn lemma_february(year: int)
    requires
        0 <= year,
    ensures
        days_of(year, 3, 1) - days_of(year, 2, 1) == month_len(year, 2),
{
    let era = (year - 1) / 400;
    let yoe = (year - 1) - era * 400;
    lemma_step_of_year(year, era, yoe);
    assert((153 * ((2int + 9) % 12) + 2) / 5 == 337);
    assert((153 * ((3int + 9) % 12) + 2) / 5 == 0);
    let k = yoe + 1;
    if yoe < 399 {
        assert(k / 4 - yoe / 4 == (if k % 4 == 0 {
            1int
        } else {
            0
        }));
        assert(k / 100 - yoe / 100 == (if k % 100 == 0 {
            1int
        } else {
            0
        }));
    }
}

proof fn lemma_day_of_year(month: int)
    requires
        1 <= month <= 12,
    ensures
        month != 2 ==> (153 * ((month + 1 + 9) % 12) + 2) / 5 - (153 * ((month + 9) % 12) + 2) / 5
            == month_len(1, month),
{
    if month == 1 {
    } else if month == 3 {
    } else if month == 4 {
    } else if month == 5 {
    } else if month == 6 {
    } else if month == 7 {
    } else if month == 8 {
    } else if month == 9 {
    } else if month == 10 {
    } else if month == 11 {
    } else if month == 12 {
    }
}

/// The days are those of the calendar: each month has its length, and the first
/// of January follows the last of December.
pub proof fn law_months_have_their_lengths(year: int, month: int)
    requires
        0 <= year,
        1 <= month <= 12,
    ensures
        days_of(1970, 1, 1) == 0,
        (if month == 12 {
            days_of(year + 1, 1, 1)
        } else {
            days_of(year, month + 1, 1)
        }) - days_of(year, month, 1) == month_len(year, month),
{
    lemma_day_of_year(month);
    if month == 2 {
        lemma_february(year);
    }
}

/// How many days ago a date was, where both are dates.
pub open spec fn age_of(date: Seq<char>, today: Seq<char>) -> Option<int> {
    match (date_days(date), date_days(today)) {
        (Some(d), Some(t)) => Some(t - d),
        _ => None,
    }
}

pub fn age_days(date: &str, today: &str) -> (r: Option<i128>)
    ensures
        (match r {
            Some(n) => Some(n as int),
            None => None,
        }) == age_of(date@, today@),
{
    match (parse_date_days(date), parse_date_days(today)) {
        (Some(d), Some(t)) => Some(t - d),
        _ => None,
    }
}

/// How often a term occurs in a document.
pub open spec fn occurrences(doc: Seq<Seq<char>>, term: Seq<char>) -> nat
    decreases doc.len(),
{
    if doc.len() == 0 {
        0
    } else {
        occurrences(doc.drop_last(), term) + (if doc.last() == term {
            1nat
        } else {
            0
        })
    }
}

/// In how many documents it occurs.
pub open spec fn holding(docs: Seq<Vec<String>>, term: Seq<char>) -> nat
    decreases docs.len(),
{
    if docs.len() == 0 {
        0
    } else {
        holding(docs.drop_last(), term) + (if occurrences(views(docs.last()@), term) > 0 {
            1nat
        } else {
            0
        })
    }
}

/// A term of the query in a document: how often it is there, and in how many
/// documents it is at all. Relevance is worked out from these numbers.
#[derive(Debug, Clone, Copy, PartialEq, Eq, Structural)]
pub struct TermHit {
    pub in_doc: usize,
    pub in_docs: usize,
}

/// The terms of a query that a document holds.
pub open spec fn hits_of(query: Seq<Seq<char>>, docs: Seq<Vec<String>>, doc: Seq<Seq<char>>) -> Seq<TermHit>
    decreases query.len(),
{
    if query.len() == 0 {
        Seq::empty()
    } else {
        let head = hits_of(query.drop_last(), docs, doc);
        let term = query.last();
        if occurrences(doc, term) > 0 {
            head.push(
                TermHit {
                    in_doc: occurrences(doc, term) as usize,
                    in_docs: holding(docs, term) as usize,
                },
            )
        } else {
            head
        }
    }
}

fn count_term(doc: &Vec<String>, term: &str) -> (r: usize)
    ensures
        r == occurrences(views(doc@), term@),
{
    let ghost all = views(doc@);
    let mut count: usize = 0;
    let mut i: usize = 0;
    assert(all.take(0) =~= Seq::<Seq<char>>::empty());
    while i < doc.len()
        invariant
            i <= doc@.len(),
            all == views(doc@),
            count <= i,
            count == occurrences(all.take(i as int), term@),
        decreases doc@.len() - i,
    {
        assert(all.take(i + 1).drop_last() =~= all.take(i as int));
        assert(all.take(i + 1).last() == doc@[i as int]@);
        if str_eq(doc[i].as_str(), term) {
            count = count + 1;
        }
        i = i + 1;
    }
    assert(all.take(i as int) =~= all);
    count
}

fn count_docs(docs: &Vec<Vec<String>>, term: &str) -> (r: usize)
    ensures
        r == holding(docs@, term@),
{
    let mut count: usize = 0;
    let mut i: usize = 0;
    assert(docs@.take(0) =~= Seq::<Vec<String>>::empty());
    while i < docs.len()
        invariant
            i <= docs@.len(),
            count <= i,
            count == holding(docs@.take(i as int), term@),
        decreases docs@.len() - i,
    {
        assert(docs@.take(i + 1).drop_last() =~= docs@.take(i as int));
        if count_term(&docs[i], term) > 0 {
            count = count + 1;
        }
        i = i + 1;
    }
    assert(docs@.take(i as int) =~= docs@);
    count
}

/// For each document the terms of the query that it holds, each term once.
pub fn term_hits(query: Vec<String>, docs: &Vec<Vec<String>>) -> (r: Vec<Vec<TermHit>>)
    ensures
        r@.len() == docs@.len(),
        forall|i: int|
            0 <= i < r@.len() ==> (#[trigger] r@[i])@ == hits_of(
                each_once(views(query@)),
                docs@,
                views(docs@[i]@),
            ),
{
    let ghost asked = each_once(views(query@));
    let terms = once_each(query);
    let mut out: Vec<Vec<TermHit>> = Vec::new();
    let mut i: usize = 0;
    while i < docs.len()
        invariant
            i <= docs@.len(),
            out@.len() == i,
            asked == views(terms@),
            forall|k: int|
                0 <= k < i ==> (#[trigger] out@[k])@ == hits_of(asked, docs@, views(docs@[k]@)),
        decreases docs@.len() - i,
    {
        let mut hits: Vec<TermHit> = Vec::new();
        let ghost doc = views(docs@[i as int]@);
        let mut j: usize = 0;
        assert(asked.take(0) =~= Seq::<Seq<char>>::empty());
        while j < terms.len()
            invariant
                j <= terms@.len(),
                i < docs@.len(),
                asked == views(terms@),
                doc == views(docs@[i as int]@),
                hits@ == hits_of(asked.take(j as int), docs@, doc),
            decreases terms@.len() - j,
        {
            assert(asked.take(j + 1).drop_last() =~= asked.take(j as int));
            assert(asked.take(j + 1).last() == terms@[j as int]@);
            let term = terms[j].as_str();
            let in_doc: usize = count_term(&docs[i], term);
            if in_doc > 0 {
                let in_docs: usize = count_docs(docs, term);
                hits.push(TermHit { in_doc, in_docs });
            }
            j = j + 1;
        }
        assert(asked.take(j as int) =~= asked);
        out.push(hits);
        i = i + 1;
    }
    out
}

proof fn lemma_holding(docs: Seq<Vec<String>>, term: Seq<char>, i: int)
    requires
        0 <= i < docs.len(),
        occurrences(views(docs[i]@), term) > 0,
    ensures
        1 <= holding(docs, term) <= docs.len(),
    decreases docs.len(),
{
    lemma_holding_bound(docs.drop_last(), term);
    if i < docs.len() - 1 {
        lemma_holding(docs.drop_last(), term, i);
    }
}

proof fn lemma_holding_bound(docs: Seq<Vec<String>>, term: Seq<char>)
    ensures
        holding(docs, term) <= docs.len(),
    decreases docs.len(),
{
    if docs.len() > 0 {
        lemma_holding_bound(docs.drop_last(), term);
    }
}

/// A term that is in one of the documents is in at least one, and in no more than
/// there are: its weight is never negative.
pub proof fn law_hits_are_in_range(query: Seq<Seq<char>>, docs: Seq<Vec<String>>, i: int, k: int)
    requires
        docs.len() <= usize::MAX,
        0 <= i < docs.len(),
        0 <= k < hits_of(query, docs, views(docs[i]@)).len(),
    ensures
        1 <= hits_of(query, docs, views(docs[i]@))[k].in_docs <= docs.len(),
    decreases query.len(),
{
    let doc = views(docs[i]@);
    if query.len() > 0 {
        let head = hits_of(query.drop_last(), docs, doc);
        if k < head.len() {
            law_hits_are_in_range(query.drop_last(), docs, i, k);
        } else {
            lemma_holding(docs, query.last(), i);
        }
    }
}

/// Note `k` gives way to note `m`: they are on the same matter and say different
/// things, and the other is of a later date, or of the same date and given first.
pub open spec fn gives_way(
    sets: Seq<TokenSet>,
    dates: Seq<Seq<char>>,
    contents: Seq<Seq<char>>,
    k: int,
    m: int,
) -> bool {
    &&& k != m
    &&& contents[k] != contents[m]
    &&& if k < m {
        same_matter(sets[k]@, sets[m]@)
    } else {
        same_matter(sets[m]@, sets[k]@)
    }
    &&& precedes(dates[k], dates[m]) || dates[k] == dates[m] && m < k
}

proof fn lemma_losers(
    sets: Seq<TokenSet>,
    dates: Seq<Seq<char>>,
    contents: Seq<Seq<char>>,
    i: int,
    j: int,
    k: int,
)
    requires
        0 <= i < j <= sets.len() + 1,
    ensures
        losers_from(sets, dates, contents, i, j).contains(k) <==> exists|a: int, b: int|
            (i < a || i == a && j <= b) && a < b < sets.len() && #[trigger] loser_of(
                sets,
                dates,
                contents,
                a,
                b,
            ) == Some(k),
    decreases sets.len() - i, sets.len() - j + 1,
{
    let list = losers_from(sets, dates, contents, i, j);
    if i >= sets.len() {
    } else if j >= sets.len() {
        lemma_losers(sets, dates, contents, i + 1, i + 2, k);
        let rest = losers_from(sets, dates, contents, i + 1, i + 2);
        if rest.contains(k) {
            let (a, b) = choose|a: int, b: int|
                (i + 1 < a || i + 1 == a && i + 2 <= b) && a < b < sets.len() && #[trigger] loser_of(
                    sets,
                    dates,
                    contents,
                    a,
                    b,
                ) == Some(k);
            assert(loser_of(sets, dates, contents, a, b) == Some(k));
        }
        if exists|a: int, b: int|
            (i < a || i == a && j <= b) && a < b < sets.len() && #[trigger] loser_of(
                sets,
                dates,
                contents,
                a,
                b,
            ) == Some(k) {
            let (a, b) = choose|a: int, b: int|
                (i < a || i == a && j <= b) && a < b < sets.len() && #[trigger] loser_of(
                    sets,
                    dates,
                    contents,
                    a,
                    b,
                ) == Some(k);
            assert(i + 1 < a || i + 1 == a && i + 2 <= b);
            assert(rest.contains(k));
        }
    } else {
        let rest = losers_from(sets, dates, contents, i, j + 1);
        lemma_losers(sets, dates, contents, i, j + 1, k);
        let here = loser_of(sets, dates, contents, i, j);
        if let Some(loser) = here {
            assert(list == seq![loser] + rest);
            assert(list[0] == loser);
            if rest.contains(k) {
                let p = choose|p: int| 0 <= p < rest.len() && rest[p] == k;
                assert(list[p + 1] == k);
            }
            if list.contains(k) && k != loser {
                let p = choose|p: int| 0 <= p < list.len() && list[p] == k;
                assert(rest[p - 1] == k);
            }
        }
        if exists|a: int, b: int|
            (i < a || i == a && j <= b) && a < b < sets.len() && #[trigger] loser_of(
                sets,
                dates,
                contents,
                a,
                b,
            ) == Some(k) {
            let (a, b) = choose|a: int, b: int|
                (i < a || i == a && j <= b) && a < b < sets.len() && #[trigger] loser_of(
                    sets,
                    dates,
                    contents,
                    a,
                    b,
                ) == Some(k);
            if a == i && b == j {
                assert(list.contains(k));
            } else {
                assert(i < a || i == a && j + 1 <= b);
                assert(rest.contains(k));
            }
        }
        if rest.contains(k) {
            let (a, b) = choose|a: int, b: int|
                (i < a || i == a && j + 1 <= b) && a < b < sets.len() && #[trigger] loser_of(
                    sets,
                    dates,
                    contents,
                    a,
                    b,
                ) == Some(k);
            assert(loser_of(sets, dates, contents, a, b) == Some(k));
        }
    }
}

/// The notes that give way are exactly those that give way to some other note: the
/// older of two on the same matter that say different things, and of two of the
/// same date the one that was given later.
pub proof fn law_older_notes_give_way(
    sets: Seq<TokenSet>,
    dates: Seq<Seq<char>>,
    contents: Seq<Seq<char>>,
    k: int,
)
    requires
        0 <= k < sets.len(),
    ensures
        losers_from(sets, dates, contents, 0, 1).contains(k) <==> exists|m: int|
            0 <= m < sets.len() && #[trigger] gives_way(sets, dates, contents, k, m),
{
    lemma_losers(sets, dates, contents, 0, 1, k);
    let list = losers_from(sets, dates, contents, 0, 1);
    if list.contains(k) {
        let (a, b) = choose|a: int, b: int|
            (0 < a || 0 == a && 1 <= b) && a < b < sets.len() && #[trigger] loser_of(
                sets,
                dates,
                contents,
                a,
                b,
            ) == Some(k);
        lemma_precedes_total(dates[a], dates[b]);
        if k == a {
            assert(gives_way(sets, dates, contents, k, b));
        } else {
            assert(gives_way(sets, dates, contents, k, a));
        }
    }
    if exists|m: int| 0 <= m < sets.len() && #[trigger] gives_way(sets, dates, contents, k, m) {
        let m = choose|m: int|
            0 <= m < sets.len() && #[trigger] gives_way(sets, dates, contents, k, m);
        lemma_precedes_total(dates[k], dates[m]);
        if k < m {
            assert(loser_of(sets, dates, contents, k, m) == Some(k));
        } else {
            assert(loser_of(sets, dates, contents, m, k) == Some(k));
        }
    }
}

proof fn lemma_common(a: Seq<Seq<char>>, b: Seq<Seq<char>>)
    requires
        a.no_duplicates(),
    ensures
        common(a, b) == a.to_set().intersect(b.to_set()).len(),
        a.to_set().finite(),
        a.to_set().len() == a.len(),
    decreases a.len(),
{
    a.unique_seq_to_set();
    vstd::seq_lib::seq_to_set_is_finite(a);
    if a.len() == 0 {
        assert(a.to_set().intersect(b.to_set()) =~= Set::<Seq<char>>::empty());
    } else {
        let init = a.drop_last();
        let last = a.last();
        lemma_common(init, b);
        assert(!init.contains(last)) by {
            if init.contains(last) {
                let i = choose|i: int| 0 <= i < init.len() && init[i] == last;
                assert(a[i] == a[a.len() - 1]);
            }
        }
        assert(a.to_set() =~= init.to_set().insert(last)) by {
            assert forall|x: Seq<char>| #[trigger] a.to_set().contains(x) <==> init.to_set().insert(
                last,
            ).contains(x) by {
                if a.contains(x) {
                    let i = choose|i: int| 0 <= i < a.len() && a[i] == x;
                    if i < init.len() {
                        assert(init[i] == x);
                    }
                }
                if init.contains(x) {
                    let i = choose|i: int| 0 <= i < init.len() && init[i] == x;
                    assert(a[i] == x);
                }
                assert(a[a.len() - 1] == last);
            }
        }
        let was = init.to_set().intersect(b.to_set());
        if b.contains(last) {
            assert(a.to_set().intersect(b.to_set()) =~= was.insert(last));
        } else {
            assert(a.to_set().intersect(b.to_set()) =~= was);
        }
    }
}

/// Two notes are on the same matter where the tokens that both hold are three
/// fifths or more of those that either holds. Which comes first does not matter.
pub proof fn law_same_matter_is_three_fifths(a: Seq<Seq<char>>, b: Seq<Seq<char>>)
    requires
        a.no_duplicates(),
        b.no_duplicates(),
    ensures
        ({
            let both = a.to_set().intersect(b.to_set());
            let either = a.to_set().union(b.to_set());
            same_matter(a, b) <==> both.len() > 0 && 5 * both.len() >= 3 * either.len()
        }),
        same_matter(a, b) == same_matter(b, a),
{
    lemma_common(a, b);
    lemma_common(b, a);
    let x = a.to_set();
    let y = b.to_set();
    assert(x.intersect(y) =~= y.intersect(x));
    vstd::set_lib::lemma_set_intersect_union_lens(x, y);
}

proof fn lemma_occurrences(doc: Seq<Seq<char>>, term: Seq<char>)
    ensures
        occurrences(doc, term) == doc.filter(|word: Seq<char>| word == term).len(),
        occurrences(doc, term) > 0 <==> doc.contains(term),
    decreases doc.len(),
{
    reveal(Seq::filter);
    if doc.len() > 0 {
        let init = doc.drop_last();
        lemma_occurrences(init, term);
        if init.contains(term) {
            let i = choose|i: int| 0 <= i < init.len() && init[i] == term;
            assert(doc[i] == term);
        }
        if doc.contains(term) && doc.last() != term {
            let i = choose|i: int| 0 <= i < doc.len() && doc[i] == term;
            assert(init[i] == term);
        }
        assert(doc[doc.len() - 1] == doc.last());
    }
}

/// How often a term occurs is how many words of the document are the term, and in
/// how many documents it occurs is how many of them hold it.
pub proof fn law_terms_are_counted(docs: Seq<Vec<String>>, doc: Seq<Seq<char>>, term: Seq<char>)
    ensures
        occurrences(doc, term) == doc.filter(|word: Seq<char>| word == term).len(),
        holding(docs, term) == docs.filter(|d: Vec<String>| views(d@).contains(term)).len(),
    decreases docs.len(),
{
    reveal(Seq::filter);
    lemma_occurrences(doc, term);
    if docs.len() > 0 {
        law_terms_are_counted(docs.drop_last(), doc, term);
        lemma_occurrences(views(docs.last()@), term);
    }
}

/// The hits of a document are the terms of the query that it holds, in the order
/// of the query, each with how often it occurs there and in how many documents.
pub proof fn law_hits_are_the_terms_held(
    query: Seq<Seq<char>>,
    docs: Seq<Vec<String>>,
    doc: Seq<Seq<char>>,
)
    ensures
        ({
            let held = query.filter(|term: Seq<char>| doc.contains(term));
            let hits = hits_of(query, docs, doc);
            &&& hits.len() == held.len()
            &&& forall|i: int|
                0 <= i < held.len() ==> (#[trigger] hits[i]).in_doc == occurrences(
                    doc,
                    held[i],
                ) as usize && hits[i].in_docs == holding(docs, held[i]) as usize
        }),
    decreases query.len(),
{
    reveal(Seq::filter);
    if query.len() > 0 {
        let init = query.drop_last();
        law_hits_are_the_terms_held(init, docs, doc);
        lemma_occurrences(doc, query.last());
        let before = init.filter(|term: Seq<char>| doc.contains(term));
        let held = query.filter(|term: Seq<char>| doc.contains(term));
        let hits = hits_of(query, docs, doc);
        assert forall|i: int| 0 <= i < held.len() implies (#[trigger] hits[i]).in_doc == occurrences(
            doc,
            held[i],
        ) as usize && hits[i].in_docs == holding(docs, held[i]) as usize by {
            if i < before.len() {
                assert(hits[i] == hits_of(init, docs, doc)[i]);
                assert(held[i] == before[i]);
            }
        }
    }
}

/// Ages add up: a day is no days old on itself, and between three days the ages
/// are those between the first two and the last two together.
pub proof fn law_ages_add_up(a: Seq<char>, b: Seq<char>, c: Seq<char>)
    requires
        date_days(a) is Some,
        date_days(b) is Some,
        date_days(c) is Some,
    ensures
        age_of(a, a) == Some(0int),
        age_of(a, c)->0 == age_of(a, b)->0 + age_of(b, c)->0,
        age_of(a, b)->0 == date_days(b)->0 - date_days(a)->0,
{
}

/// A date is read as a year, a month and a day with hyphens between them, and is
/// no date where one of them is no number.
pub proof fn law_dates_are_read(text: Seq<char>)
    ensures
        ({
            let parts = parts_of(text, '-');
            match date_days(text) {
                Some(days) => parts.len() >= 3 && number_of(parts[0]) is Some && number_of(
                    parts[1],
                ) is Some && number_of(parts[2]) is Some && days == days_of(
                    number_of(parts[0])->0,
                    number_of(parts[1])->0,
                    number_of(parts[2])->0,
                ),
                None => parts.len() < 3 || number_of(parts[0]) is None || number_of(parts[1]) is None
                    || number_of(parts[2]) is None,
            }
        }),
{
}

/// The notes that are handed on are named by their own places, in order.
pub proof fn law_notes_are_named_by_their_places(list: Seq<ScoredView>, i: int)
    requires
        0 <= i < list.len(),
    ensures
        indices(list).len() == list.len(),
        indices(list)[i] == list[i].index,
{
}

} // verus!
