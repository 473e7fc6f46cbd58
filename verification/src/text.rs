//! Text as sequences of characters: trimming, searching, splitting and
//! building strings, each stated over `Seq<char>`.

use vstd::prelude::*;
use vstd::string::*;
use vstd::utf8::*;

verus! {

/// `String::push` appends one character to the end of the string.
pub assume_specification[ String::push ](s: &mut String, c: char)
    ensures
        final(s)@ == old(s)@.push(c),
;

/// A character with Unicode's `White_Space` property.
pub open spec fn is_space(c: char) -> bool {
    let u = c as u32;
    ||| 0x9 <= u <= 0xd
    ||| u == 0x20
    ||| u == 0x85
    ||| u == 0xa0
    ||| u == 0x1680
    ||| 0x2000 <= u <= 0x200a
    ||| u == 0x2028
    ||| u == 0x2029
    ||| u == 0x202f
    ||| u == 0x205f
    ||| u == 0x3000
}

pub fn is_whitespace(c: char) -> (r: bool)
    ensures
        r == is_space(c),
{
    let u: u32 = c as u32;
    (0x9 <= u && u <= 0xd) || u == 0x20 || u == 0x85 || u == 0xa0 || u == 0x1680 || (0x2000 <= u && u
        <= 0x200a) || u == 0x2028 || u == 0x2029 || u == 0x202f || u == 0x205f || u == 0x3000
}

/// The characters of a string, in order.
pub fn chars_of(s: &str) -> (r: Vec<char>)
    ensures
        r@ == s@,
{
    let mut out: Vec<char> = Vec::new();
    for c in it: s.chars()
        invariant
            it.seq() == s@,
            out@ == s@.take(it.index() as int),
    {
        out.push(c);
    }
    assert(s@.take(s@.len() as int) == s@);
    out
}

/// The string made of the characters `chars[from..to]`.
pub fn string_of(chars: &[char], from: usize, to: usize) -> (r: String)
    requires
        from <= to <= chars@.len(),
    ensures
        r@ == chars@.subrange(from as int, to as int),
{
    let mut out: String = String::new();
    let mut i: usize = from;
    while i < to
        invariant
            from <= i <= to <= chars@.len(),
            out@ == chars@.subrange(from as int, i as int),
        decreases to - i,
    {
        out.push(chars[i]);
        i = i + 1;
    }
    out
}

pub fn str_eq(a: &str, b: &str) -> (r: bool)
    ensures
        r == (a@ == b@),
{
    let x = a.as_bytes();
    let y = b.as_bytes();
    if x.len() != y.len() {
        return false;
    }
    let mut i: usize = 0;
    while i < x.len()
        invariant
            i <= x@.len() == y@.len(),
            x@ == encode_utf8(a@),
            y@ == encode_utf8(b@),
            x@.take(i as int) == y@.take(i as int),
        decreases x@.len() - i,
    {
        if x[i] != y[i] {
            return false;
        }
        i = i + 1;
    }
    proof {
        assert(x@.take(i as int) == x@);
        assert(y@.take(i as int) == y@);
        encode_utf8_decode_utf8(a@);
        encode_utf8_decode_utf8(b@);
    }
    true
}

pub open spec fn digit_char(d: nat) -> char {
    (48 + d) as char
}

/// The decimal digits of `n`, without leading zeros.
pub open spec fn decimal(n: nat) -> Seq<char>
    decreases n,
{
    if n < 10 {
        seq![digit_char(n)]
    } else {
        decimal(n / 10).push(digit_char(n % 10))
    }
}

pub fn decimal_of(n: u64) -> (r: String)
    ensures
        r@ == decimal(n as nat),
{
    decimal_wide(n as u128)
}

pub fn decimal_wide(n: u128) -> (r: String)
    ensures
        r@ == decimal(n as nat),
    decreases n,
{
    let mut out: String = if n < 10 { String::new() } else { decimal_wide(n / 10) };
    let d: u8 = 48 + (n % 10) as u8;
    out.push(d as char);
    out
}

/// What `format!("{:?}")` makes of a string: the text in double quotes, with
/// the characters escaped that Rust's `Debug` for `str` escapes.
pub uninterp spec fn quoted(s: Seq<char>) -> Seq<char>;

/// `Debug` of `str`, through `format!`.
#[verifier::external_body]
pub(crate) fn debug_quoted(s: &str) -> (r: String)
    ensures
        r@ == quoted(s@),
{
    format!("{s:?}")
}

pub open spec fn starts(s: Seq<char>, prefix: Seq<char>) -> bool {
    prefix.len() <= s.len() && s.subrange(0, prefix.len() as int) == prefix
}

pub open spec fn ends(s: Seq<char>, suffix: Seq<char>) -> bool {
    suffix.len() <= s.len() && s.subrange(s.len() - suffix.len(), s.len() as int) == suffix
}

/// `needle` stands in `s` at position `i`.
pub open spec fn occurs_at(s: Seq<char>, needle: Seq<char>, i: int) -> bool {
    0 <= i && i + needle.len() <= s.len() && s.subrange(i, i + needle.len()) == needle
}

pub open spec fn occurs(s: Seq<char>, needle: Seq<char>) -> bool {
    exists|i: int| occurs_at(s, needle, i)
}

pub fn matches_at(s: &[char], needle: &[char], at: usize) -> (r: bool)
    ensures
        r == occurs_at(s@, needle@, at as int),
{
    if needle.len() > s.len() || at > s.len() - needle.len() {
        return false;
    }
    let len: usize = s.len();
    let mut i: usize = 0;
    while i < needle.len()
        invariant
            i <= needle@.len(),
            at + needle@.len() <= s@.len() == len,
            forall|j: int| 0 <= j < i ==> s@[at + j] == needle@[j],
        decreases needle@.len() - i,
    {
        if s[at + i] != needle[i] {
            assert(s@.subrange(at as int, at + needle@.len())[i as int] != needle@[i as int]);
            return false;
        }
        i = i + 1;
    }
    assert(s@.subrange(at as int, at + needle@.len()) =~= needle@);
    true
}

pub fn starts_with(s: &str, prefix: &str) -> (r: bool)
    ensures
        r == starts(s@, prefix@),
{
    let a = chars_of(s);
    let b = chars_of(prefix);
    matches_at(a.as_slice(), b.as_slice(), 0)
}

pub fn ends_with(s: &str, suffix: &str) -> (r: bool)
    ensures
        r == ends(s@, suffix@),
{
    let a = chars_of(s);
    let b = chars_of(suffix);
    if b.len() > a.len() {
        return false;
    }
    matches_at(a.as_slice(), b.as_slice(), a.len() - b.len())
}

pub fn contains(s: &str, needle: &str) -> (r: bool)
    ensures
        r == occurs(s@, needle@),
{
    let a = chars_of(s);
    let b = chars_of(needle);
    let mut i: usize = 0;
    while i <= a.len()
        invariant
            i <= a@.len() + 1,
            a@ == s@,
            b@ == needle@,
            forall|j: int| 0 <= j < i ==> !occurs_at(s@, needle@, j),
        decreases a@.len() + 1 - i,
    {
        if matches_at(a.as_slice(), b.as_slice(), i) {
            return true;
        }
        if i == a.len() {
            return false;
        }
        i = i + 1;
    }
    false
}

/// The last position of a character.
pub open spec fn last_index(s: Seq<char>, c: char) -> Option<int>
    decreases s.len(),
{
    if s.len() == 0 {
        None
    } else if s.last() == c {
        Some(s.len() - 1)
    } else {
        last_index(s.drop_last(), c)
    }
}

pub proof fn lemma_last_index(s: Seq<char>, c: char)
    ensures
        last_index(s, c) matches Some(i) ==> 0 <= i < s.len() && s[i] == c,
    decreases s.len(),
{
    if s.len() > 0 && s.last() != c {
        lemma_last_index(s.drop_last(), c);
    }
}

pub fn rfind(s: &[char], c: char) -> (r: Option<usize>)
    ensures
        match r {
            Some(i) => i < s@.len() && last_index(s@, c) == Some(i as int),
            None => last_index(s@, c) is None,
        },
{
    let mut end: usize = s.len();
    assert(s@.take(end as int) =~= s@);
    while end > 0
        invariant
            end <= s@.len(),
            last_index(s@, c) == last_index(s@.take(end as int), c),
        decreases end,
    {
        let ghost here = s@.take(end as int);
        assert(here.last() == s@[end - 1]);
        if s[end - 1] == c {
            return Some(end - 1);
        }
        assert(here.drop_last() =~= s@.take(end - 1));
        end = end - 1;
    }
    None
}

/// The first position at which `needle` stands in `s`, from `from` on.
pub open spec fn first_at(s: Seq<char>, needle: Seq<char>, from: int) -> Option<int>
    decreases s.len() - from + 1,
{
    if from < 0 || from + needle.len() > s.len() {
        None
    } else if occurs_at(s, needle, from) {
        Some(from)
    } else {
        first_at(s, needle, from + 1)
    }
}

pub proof fn lemma_first_at(s: Seq<char>, needle: Seq<char>, from: int)
    ensures
        first_at(s, needle, from) matches Some(i) ==> from <= i && occurs_at(s, needle, i),
    decreases s.len() - from + 1,
{
    if !(from < 0 || from + needle.len() > s.len()) && !occurs_at(s, needle, from) {
        lemma_first_at(s, needle, from + 1);
    }
}

/// The first position at which `needle` stands in `s`.
pub fn find_chars(s: &[char], needle: &[char]) -> (r: Option<usize>)
    ensures
        match r {
            Some(i) => first_at(s@, needle@, 0) == Some(i as int) && i + needle@.len() <= s@.len(),
            None => first_at(s@, needle@, 0) is None,
        },
{
    if needle.len() > s.len() {
        return None;
    }
    let last: usize = s.len() - needle.len();
    let mut i: usize = 0;
    loop
        invariant
            last == s@.len() - needle@.len(),
            i <= last,
            first_at(s@, needle@, 0) == first_at(s@, needle@, i as int),
        decreases last - i,
    {
        if matches_at(s, needle, i) {
            return Some(i);
        }
        if i == last {
            assert(first_at(s@, needle@, i + 1) is None);
            return None;
        }
        i = i + 1;
    }
}

/// The text before the first `sep` and the text after it.
pub open spec fn cut(s: Seq<char>, sep: Seq<char>) -> Option<(Seq<char>, Seq<char>)> {
    match first_at(s, sep, 0) {
        Some(i) => Some((s.subrange(0, i), s.subrange(i + sep.len(), s.len() as int))),
        None => None,
    }
}

pub fn split_once(s: &str, sep: &str) -> (r: Option<(String, String)>)
    ensures
        (match r {
            Some((a, b)) => Some((a@, b@)),
            None => None,
        }) == cut(s@, sep@),
{
    let chars = chars_of(s);
    let needle = chars_of(sep);
    match find_chars(chars.as_slice(), needle.as_slice()) {
        Some(i) => {
            let len: usize = chars.len();
            let head = string_of(chars.as_slice(), 0, i);
            let tail = string_of(chars.as_slice(), i + needle.len(), len);
            Some((head, tail))
        },
        None => None,
    }
}

/// What is left of `s` behind `prefix`.
pub open spec fn behind(s: Seq<char>, prefix: Seq<char>) -> Option<Seq<char>> {
    if starts(s, prefix) {
        Some(s.subrange(prefix.len() as int, s.len() as int))
    } else {
        None
    }
}

pub fn strip_prefix(s: &str, prefix: &str) -> (r: Option<String>)
    ensures
        opt_view(r) == behind(s@, prefix@),
{
    let a = chars_of(s);
    let b = chars_of(prefix);
    if matches_at(a.as_slice(), b.as_slice(), 0) {
        Some(string_of(a.as_slice(), b.len(), a.len()))
    } else {
        None
    }
}

/// What is left of `s` in front of `suffix`.
pub open spec fn before(s: Seq<char>, suffix: Seq<char>) -> Option<Seq<char>> {
    if ends(s, suffix) {
        Some(s.subrange(0, s.len() - suffix.len()))
    } else {
        None
    }
}

pub fn strip_suffix(s: &str, suffix: &str) -> (r: Option<String>)
    ensures
        opt_view(r) == before(s@, suffix@),
{
    let a = chars_of(s);
    let b = chars_of(suffix);
    if b.len() <= a.len() && matches_at(a.as_slice(), b.as_slice(), a.len() - b.len()) {
        Some(string_of(a.as_slice(), 0, a.len() - b.len()))
    } else {
        None
    }
}

/// `s` without the white space at its start.
pub open spec fn trimmed_start(s: Seq<char>) -> Seq<char>
    decreases s.len(),
{
    if s.len() > 0 && is_space(s[0]) {
        trimmed_start(s.subrange(1, s.len() as int))
    } else {
        s
    }
}

/// `s` without the white space at its end.
pub open spec fn trimmed_end(s: Seq<char>) -> Seq<char>
    decreases s.len(),
{
    if s.len() > 0 && is_space(s.last()) {
        trimmed_end(s.drop_last())
    } else {
        s
    }
}

pub open spec fn trimmed(s: Seq<char>) -> Seq<char> {
    trimmed_end(trimmed_start(s))
}

/// The range of `chars` without white space at either end.
fn trim_range(chars: &[char], front: bool, back: bool) -> (r: (usize, usize))
    ensures
        r.0 <= r.1 <= chars@.len(),
        chars@.subrange(r.0 as int, r.1 as int) == {
            let s = if front {
                trimmed_start(chars@)
            } else {
                chars@
            };
            if back {
                trimmed_end(s)
            } else {
                s
            }
        },
{
    let mut from: usize = 0;
    let mut to: usize = chars.len();
    let ghost s = chars@;
    assert(s.subrange(0, s.len() as int) =~= s);
    if front {
        while from < to && is_whitespace(chars[from])
            invariant
                s == chars@,
                from <= to == s.len(),
                trimmed_start(s.subrange(from as int, s.len() as int)) == trimmed_start(s),
            decreases to - from,
        {
            assert(s.subrange(from as int, s.len() as int).subrange(1, s.len() - from) =~= s.subrange(
                from + 1,
                s.len() as int,
            ));
            from = from + 1;
        }
        assert(trimmed_start(s) == s.subrange(from as int, s.len() as int));
    }
    let ghost t = s.subrange(from as int, s.len() as int);
    if back {
        while from < to && is_whitespace(chars[to - 1])
            invariant
                s == chars@,
                from <= to <= s.len(),
                trimmed_end(s.subrange(from as int, to as int)) == trimmed_end(t),
            decreases to - from,
        {
            assert(s.subrange(from as int, to as int).drop_last() =~= s.subrange(
                from as int,
                to - 1,
            ));
            to = to - 1;
        }
        assert(trimmed_end(t) == s.subrange(from as int, to as int));
    }
    (from, to)
}

pub fn trim(s: &str) -> (r: String)
    ensures
        r@ == trimmed(s@),
{
    let chars = chars_of(s);
    let (from, to): (usize, usize) = trim_range(chars.as_slice(), true, true);
    string_of(chars.as_slice(), from, to)
}

pub fn trim_start(s: &str) -> (r: String)
    ensures
        r@ == trimmed_start(s@),
{
    let chars = chars_of(s);
    let (from, to): (usize, usize) = trim_range(chars.as_slice(), true, false);
    string_of(chars.as_slice(), from, to)
}

pub fn trim_end(s: &str) -> (r: String)
    ensures
        r@ == trimmed_end(s@),
{
    let chars = chars_of(s);
    let (from, to): (usize, usize) = trim_range(chars.as_slice(), false, true);
    string_of(chars.as_slice(), from, to)
}

/// `s` without the characters `c` at its end.
pub open spec fn trimmed_of(s: Seq<char>, c: char) -> Seq<char>
    decreases s.len(),
{
    if s.len() > 0 && s.last() == c {
        trimmed_of(s.drop_last(), c)
    } else {
        s
    }
}

pub fn trim_end_matches(s: &str, c: char) -> (r: String)
    ensures
        r@ == trimmed_of(s@, c),
{
    let chars = chars_of(s);
    let mut to: usize = chars.len();
    assert(chars@.subrange(0, to as int) =~= s@);
    while to > 0 && chars[to - 1] == c
        invariant
            to <= chars@.len(),
            trimmed_of(chars@.subrange(0, to as int), c) == trimmed_of(s@, c),
        decreases to,
    {
        assert(chars@.subrange(0, to as int).drop_last() =~= chars@.subrange(0, to - 1));
        to = to - 1;
    }
    string_of(chars.as_slice(), 0, to)
}

/// The text without the characters `c` at its start.
pub open spec fn trimmed_front(s: Seq<char>, c: char) -> Seq<char>
    decreases s.len(),
{
    if s.len() > 0 && s[0] == c {
        trimmed_front(s.subrange(1, s.len() as int), c)
    } else {
        s
    }
}

pub fn trim_start_matches(s: &str, c: char) -> (r: String)
    ensures
        r@ == trimmed_front(s@, c),
{
    let chars = chars_of(s);
    let mut from: usize = 0;
    assert(chars@.subrange(0, chars@.len() as int) =~= chars@);
    while from < chars.len() && chars[from] == c
        invariant
            from <= chars@.len(),
            trimmed_front(chars@, c) == trimmed_front(
                chars@.subrange(from as int, chars@.len() as int),
                c,
            ),
        decreases chars@.len() - from,
    {
        let ghost rest = chars@.subrange(from as int, chars@.len() as int);
        assert(rest.subrange(1, rest.len() as int) =~= chars@.subrange(
            from + 1,
            chars@.len() as int,
        ));
        from = from + 1;
    }
    string_of(chars.as_slice(), from, chars.len())
}

/// The first characters of a text, at most `count`.
pub open spec fn first_chars(s: Seq<char>, count: int) -> Seq<char> {
    if s.len() <= count {
        s
    } else {
        s.take(count)
    }
}

pub fn take_chars(s: &str, count: usize) -> (r: String)
    ensures
        r@ == first_chars(s@, count as int),
{
    let chars = chars_of(s);
    let to: usize = if chars.len() <= count {
        chars.len()
    } else {
        count
    };
    let r = string_of(chars.as_slice(), 0, to);
    assert(chars@.subrange(0, to as int) =~= first_chars(s@, count as int));
    r
}

/// The last characters of a text, at most `count`.
pub open spec fn last_chars(s: Seq<char>, count: int) -> Seq<char> {
    if s.len() <= count {
        s
    } else {
        s.subrange(s.len() - count, s.len() as int)
    }
}

pub fn tail_chars(s: &str, count: usize) -> (r: String)
    ensures
        r@ == last_chars(s@, count as int),
{
    let chars = chars_of(s);
    let from: usize = if chars.len() <= count {
        0
    } else {
        chars.len() - count
    };
    let r = string_of(chars.as_slice(), from, chars.len());
    assert(chars@.subrange(from as int, chars@.len() as int) =~= last_chars(s@, count as int));
    r
}

/// The parts one after the other, with `sep` between each two.
pub open spec fn joined(parts: Seq<Seq<char>>, sep: Seq<char>) -> Seq<char>
    decreases parts.len(),
{
    if parts.len() == 0 {
        Seq::empty()
    } else if parts.len() == 1 {
        parts[0]
    } else {
        joined(parts.drop_last(), sep) + sep + parts.last()
    }
}

pub fn join(parts: &[String], sep: &str) -> (r: String)
    ensures
        r@ == joined(views(parts@), sep@),
{
    let mut out: String = String::new();
    let mut i: usize = 0;
    assert(views(parts@).take(0) =~= Seq::<Seq<char>>::empty());
    while i < parts.len()
        invariant
            i <= parts@.len(),
            out@ == joined(views(parts@).take(i as int), sep@),
        decreases parts@.len() - i,
    {
        let ghost next = views(parts@).take(i + 1);
        assert(next.drop_last() =~= views(parts@).take(i as int));
        assert(next.last() == parts@[i as int]@);
        if i > 0 {
            out.append(sep);
        } else {
            assert(out@ + parts@[0]@ =~= parts@[0]@);
        }
        out.append(parts[i].as_str());
        i = i + 1;
    }
    assert(views(parts@).take(i as int) =~= views(parts@));
    out
}

/// The text between the separators, the empty parts too: `n` separators make
/// `n + 1` parts.
pub open spec fn parts_of(s: Seq<char>, sep: char) -> Seq<Seq<char>>
    decreases s.len(),
{
    if s.len() == 0 {
        seq![Seq::empty()]
    } else if s.last() == sep {
        parts_of(s.drop_last(), sep).push(Seq::empty())
    } else {
        let head = parts_of(s.drop_last(), sep);
        head.drop_last().push(head.last().push(s.last()))
    }
}

pub proof fn lemma_parts_nonempty(s: Seq<char>, sep: char)
    ensures
        parts_of(s, sep).len() > 0,
    decreases s.len(),
{
    if s.len() > 0 {
        lemma_parts_nonempty(s.drop_last(), sep);
    }
}

pub fn split(s: &str, sep: char) -> (r: Vec<String>)
    ensures
        views(r@) == parts_of(s@, sep),
        r@.len() > 0,
{
    let chars = chars_of(s);
    let mut out: Vec<String> = Vec::new();
    let mut part: String = String::new();
    let mut i: usize = 0;
    assert(views(out@).push(part@) =~= seq![Seq::<char>::empty()]);
    while i < chars.len()
        invariant
            i <= chars@.len(),
            views(out@).push(part@) == parts_of(chars@.take(i as int), sep),
        decreases chars@.len() - i,
    {
        let ghost here = chars@.take(i + 1);
        assert(here.drop_last() =~= chars@.take(i as int));
        let ghost before_out = out@;
        let ghost before_part = part@;
        if chars[i] == sep {
            out.push(part);
            assert(views(out@) =~= views(before_out).push(before_part));
            part = String::new();
        } else {
            part.push(chars[i]);
            let ghost head = parts_of(chars@.take(i as int), sep);
            assert(head.drop_last() =~= views(before_out));
            assert(head.last() == before_part);
        }
        i = i + 1;
    }
    assert(chars@.take(i as int) =~= s@);
    let ghost before_out = out@;
    let ghost last = part@;
    out.push(part);
    assert(views(out@) =~= views(before_out).push(last));
    out
}

/// ASCII capitals made small; every other character kept.
pub open spec fn ascii_lower(c: char) -> char {
    if 'A' <= c && c <= 'Z' {
        (c as u32 + 32) as char
    } else {
        c
    }
}

pub fn to_ascii_lower(c: char) -> (r: char)
    ensures
        r == ascii_lower(c),
{
    if 'A' <= c && c <= 'Z' {
        let u: u8 = c as u8 + 32;
        u as char
    } else {
        c
    }
}

pub fn to_ascii_lowercase(s: &str) -> (r: String)
    ensures
        r@ == s@.map_values(|c: char| ascii_lower(c)),
{
    let chars = chars_of(s);
    let mut out: String = String::new();
    let mut i: usize = 0;
    while i < chars.len()
        invariant
            i <= chars@.len(),
            out@ == chars@.take(i as int).map_values(|c: char| ascii_lower(c)),
        decreases chars@.len() - i,
    {
        out.push(to_ascii_lower(chars[i]));
        i = i + 1;
        assert(out@ =~= chars@.take(i as int).map_values(|c: char| ascii_lower(c)));
    }
    assert(chars@.take(i as int) =~= chars@);
    out
}

/// ASCII small letters made capital; every other character kept.
pub open spec fn ascii_upper(c: char) -> char {
    if 'a' <= c && c <= 'z' {
        (c as u32 - 32) as char
    } else {
        c
    }
}

fn to_ascii_upper(c: char) -> (r: char)
    ensures
        r == ascii_upper(c),
{
    if 'a' <= c && c <= 'z' {
        let u: u8 = c as u8 - 32;
        u as char
    } else {
        c
    }
}

pub fn to_ascii_uppercase(s: &str) -> (r: String)
    ensures
        r@ == s@.map_values(|c: char| ascii_upper(c)),
{
    let chars = chars_of(s);
    let mut out: String = String::new();
    let mut i: usize = 0;
    while i < chars.len()
        invariant
            i <= chars@.len(),
            out@ == chars@.take(i as int).map_values(|c: char| ascii_upper(c)),
        decreases chars@.len() - i,
    {
        out.push(to_ascii_upper(chars[i]));
        i = i + 1;
        assert(out@ =~= chars@.take(i as int).map_values(|c: char| ascii_upper(c)));
    }
    assert(chars@.take(i as int) =~= chars@);
    out
}

/// A string that may be missing, by its characters.
pub open spec fn opt_view(s: Option<String>) -> Option<Seq<char>> {
    match s {
        Some(s) => Some(s@),
        None => None,
    }
}

/// A list of strings, by their characters.
pub open spec fn views(list: Seq<String>) -> Seq<Seq<char>> {
    list.map_values(|s: String| s@)
}

/// The items of a list, each one where it comes first.
pub open spec fn each_once(list: Seq<Seq<char>>) -> Seq<Seq<char>>
    decreases list.len(),
{
    if list.len() == 0 {
        Seq::empty()
    } else {
        let head = each_once(list.drop_last());
        if head.contains(list.last()) {
            head
        } else {
            head.push(list.last())
        }
    }
}

/// Whether a text stands in a list.
pub fn holds(list: &Vec<String>, text: &str) -> (r: bool)
    ensures
        r == views(list@).contains(text@),
{
    let mut i: usize = 0;
    while i < list.len()
        invariant
            i <= list@.len(),
            forall|j: int| 0 <= j < i ==> views(list@)[j] != text@,
        decreases list@.len() - i,
    {
        if str_eq(list[i].as_str(), text) {
            assert(views(list@)[i as int] == text@);
            return true;
        }
        i = i + 1;
    }
    false
}

/// The texts of a list, each one where it comes first.
pub fn once_each(list: Vec<String>) -> (r: Vec<String>)
    ensures
        views(r@) == each_once(views(list@)),
{
    let mut out: Vec<String> = Vec::new();
    let ghost all = views(list@);
    let mut i: usize = 0;
    assert(all.take(0) =~= Seq::<Seq<char>>::empty());
    assert(views(out@) =~= Seq::<Seq<char>>::empty());
    while i < list.len()
        invariant
            i <= list@.len(),
            all == views(list@),
            views(out@) == each_once(all.take(i as int)),
        decreases list@.len() - i,
    {
        assert(all.take(i + 1).drop_last() =~= all.take(i as int));
        if !holds(&out, list[i].as_str()) {
            let ghost before = out@;
            out.push(list[i].clone());
            assert(views(out@) =~= views(before).push(all[i as int]));
        }
        i = i + 1;
    }
    assert(all.take(i as int) =~= all);
    out
}

proof fn lemma_each_once(list: Seq<Seq<char>>)
    ensures
        each_once(list).no_duplicates(),
        forall|t: Seq<char>| #[trigger] each_once(list).contains(t) <==> list.contains(t),
    decreases list.len(),
{
    if list.len() > 0 {
        lemma_each_once(list.drop_last());
        let head = each_once(list.drop_last());
        assert forall|t: Seq<char>| #[trigger] each_once(list).contains(t) <==> list.contains(t) by {
            assert(list.drop_last().contains(t) || t == list.last() <==> list.contains(t)) by {
                if list.contains(t) {
                    let k = choose|k: int| 0 <= k < list.len() && list[k] == t;
                    if k < list.len() - 1 {
                        assert(list.drop_last()[k] == t);
                    }
                }
                if list.drop_last().contains(t) {
                    let k = choose|k: int| 0 <= k < list.drop_last().len() && list.drop_last()[k] == t;
                    assert(list[k] == t);
                }
                assert(list[list.len() - 1] == list.last());
            }
            if !head.contains(list.last()) {
                let grown = head.push(list.last());
                if grown.contains(t) {
                    let k = choose|k: int| 0 <= k < grown.len() && grown[k] == t;
                    if k < head.len() {
                        assert(head[k] == t);
                    }
                }
                if head.contains(t) {
                    let k = choose|k: int| 0 <= k < head.len() && head[k] == t;
                    assert(grown[k] == t);
                }
                assert(grown[grown.len() - 1] == list.last());
            }
        }
        if !head.contains(list.last()) {
            let grown = head.push(list.last());
            assert forall|i: int, j: int| 0 <= i < grown.len() && 0 <= j < grown.len() && i != j implies grown[i]
                != grown[j] by {
                if i == head.len() {
                    assert(head[j] == grown[j]);
                } else if j == head.len() {
                    assert(head[i] == grown[i]);
                }
            }
        }
    }
}

/// Each text stands once in the result, and none is lost.
pub proof fn law_each_text_once(list: Seq<Seq<char>>, text: Seq<char>)
    ensures
        each_once(list).no_duplicates(),
        each_once(list).contains(text) <==> list.contains(text),
{
    lemma_each_once(list);
}

pub fn opt_eq(a: &Option<String>, b: &Option<String>) -> (r: bool)
    ensures
        r == (opt_view(*a) == opt_view(*b)),
{
    match (a, b) {
        (Some(x), Some(y)) => str_eq(x.as_str(), y.as_str()),
        (None, None) => true,
        _ => false,
    }
}

pub fn opt_clone(s: &Option<String>) -> (r: Option<String>)
    ensures
        opt_view(r) == opt_view(*s),
{
    match s {
        Some(x) => Some(x.clone()),
        None => None,
    }
}

pub fn cat2(a: &str, b: &str) -> (r: String)
    ensures
        r@ == a@ + b@,
{
    let mut out: String = a.to_owned();
    out.append(b);
    out
}

pub fn cat3(a: &str, b: &str, c: &str) -> (r: String)
    ensures
        r@ == a@ + b@ + c@,
{
    let mut out: String = a.to_owned();
    out.append(b);
    out.append(c);
    out
}

pub fn cat4(a: &str, b: &str, c: &str, d: &str) -> (r: String)
    ensures
        r@ == a@ + b@ + c@ + d@,
{
    let mut out: String = a.to_owned();
    out.append(b);
    out.append(c);
    out.append(d);
    out
}

pub fn cat5(a: &str, b: &str, c: &str, d: &str, e: &str) -> (r: String)
    ensures
        r@ == a@ + b@ + c@ + d@ + e@,
{
    let mut out: String = a.to_owned();
    out.append(b);
    out.append(c);
    out.append(d);
    out.append(e);
    out
}

pub fn cat6(a: &str, b: &str, c: &str, d: &str, e: &str, f: &str) -> (r: String)
    ensures
        r@ == a@ + b@ + c@ + d@ + e@ + f@,
{
    let mut out: String = a.to_owned();
    out.append(b);
    out.append(c);
    out.append(d);
    out.append(e);
    out.append(f);
    out
}

pub fn cat7(a: &str, b: &str, c: &str, d: &str, e: &str, f: &str, g: &str) -> (r: String)
    ensures
        r@ == a@ + b@ + c@ + d@ + e@ + f@ + g@,
{
    let mut out: String = a.to_owned();
    out.append(b);
    out.append(c);
    out.append(d);
    out.append(e);
    out.append(f);
    out.append(g);
    out
}

/// `a` comes before `b` in the order of their characters.
pub open spec fn precedes(a: Seq<char>, b: Seq<char>) -> bool
    decreases a.len(),
{
    if b.len() == 0 {
        false
    } else if a.len() == 0 {
        true
    } else if a[0] != b[0] {
        a[0] < b[0]
    } else {
        precedes(a.subrange(1, a.len() as int), b.subrange(1, b.len() as int))
    }
}

pub proof fn lemma_precedes_total(a: Seq<char>, b: Seq<char>)
    ensures
        precedes(a, b) || precedes(b, a) || a == b,
        !(precedes(a, b) && precedes(b, a)),
        a == b ==> !precedes(a, b),
    decreases a.len(),
{
    if a.len() > 0 && b.len() > 0 && a[0] == b[0] {
        let x = a.subrange(1, a.len() as int);
        let y = b.subrange(1, b.len() as int);
        lemma_precedes_total(x, y);
        if x == y {
            assert(a =~= seq![a[0]] + x);
            assert(b =~= seq![b[0]] + y);
        }
    } else if a.len() == 0 && b.len() == 0 {
        assert(a =~= b);
    }
}

pub proof fn lemma_precedes_transitive(a: Seq<char>, b: Seq<char>, c: Seq<char>)
    requires
        precedes(a, b),
        precedes(b, c),
    ensures
        precedes(a, c),
    decreases a.len(),
{
    if a.len() > 0 && b.len() > 0 && c.len() > 0 && a[0] == b[0] && b[0] == c[0] {
        lemma_precedes_transitive(
            a.subrange(1, a.len() as int),
            b.subrange(1, b.len() as int),
            c.subrange(1, c.len() as int),
        );
    }
}

pub fn less(a: &str, b: &str) -> (r: bool)
    ensures
        r == precedes(a@, b@),
{
    let x = chars_of(a);
    let y = chars_of(b);
    let mut i: usize = 0;
    assert(x@.subrange(0, x@.len() as int) =~= x@);
    assert(y@.subrange(0, y@.len() as int) =~= y@);
    while i < x.len() && i < y.len() && x[i] == y[i]
        invariant
            i <= x@.len(),
            i <= y@.len(),
            precedes(a@, b@) == precedes(
                x@.subrange(i as int, x@.len() as int),
                y@.subrange(i as int, y@.len() as int),
            ),
        decreases x@.len() - i,
    {
        let ghost p = x@.subrange(i as int, x@.len() as int);
        let ghost q = y@.subrange(i as int, y@.len() as int);
        assert(p[0] == x@[i as int] && q[0] == y@[i as int]);
        assert(p.subrange(1, p.len() as int) =~= x@.subrange(i + 1, x@.len() as int));
        assert(q.subrange(1, q.len() as int) =~= y@.subrange(i + 1, y@.len() as int));
        i = i + 1;
    }
    let ghost p = x@.subrange(i as int, x@.len() as int);
    let ghost q = y@.subrange(i as int, y@.len() as int);
    if i >= y.len() {
        false
    } else if i >= x.len() {
        true
    } else {
        assert(p[0] == x@[i as int] && q[0] == y@[i as int]);
        x[i] < y[i]
    }
}

/// In ascending order, each text at most once next to another.
pub open spec fn ascending(list: Seq<Seq<char>>) -> bool {
    forall|i: int, j: int|
        0 <= i < j < list.len() ==> !precedes(#[trigger] list[j], #[trigger] list[i])
}

/// The texts of `list` in ascending order: `r` holds the same texts, as often.
pub fn sort(list: Vec<String>) -> (r: Vec<String>)
    ensures
        ascending(views(r@)),
        views(r@).to_multiset() == views(list@).to_multiset(),
{
    let mut list = list;
    let mut out: Vec<String> = Vec::new();
    let ghost all = views(list@);
    let ghost mut moved: Seq<Seq<char>> = Seq::empty();
    assert(views(out@) =~= Seq::<Seq<char>>::empty());
    while list.len() > 0
        invariant
            ascending(views(out@)),
            views(out@).to_multiset() == moved.to_multiset(),
            views(list@) + moved == all,
        decreases list@.len(),
    {
        let ghost before_list = list@;
        let ghost before_out = views(out@);
        let ghost before_moved = moved;
        let text = list.pop().unwrap();
        let mut at: usize = 0;
        while at < out.len() && !less(text.as_str(), out[at].as_str())
            invariant
                at <= out@.len(),
                forall|j: int| 0 <= j < at ==> !precedes(text@, #[trigger] out@[j]@),
            decreases out@.len() - at,
        {
            at = at + 1;
        }
        let ghost said = text@;
        out.insert(at, text);
        proof {
            moved = seq![said] + before_moved;
            assert(views(list@) + moved =~= all) by {
                assert(views(before_list) =~= views(list@).push(said));
            }
            assert(views(out@) =~= before_out.insert(at as int, said));
            lemma_insert_multiset(before_out, at as int, said);
            lemma_insert_multiset(before_moved, 0, said);
            assert(before_moved.insert(0, said) =~= moved);
            assert forall|i: int, j: int| 0 <= i < j < views(out@).len() implies !precedes(
                #[trigger] views(out@)[j],
                #[trigger] views(out@)[i],
            ) by {
                let oi = if i < at { i } else { i - 1 };
                let oj = if j < at { j } else { j - 1 };
                if i == at {
                    if at < before_out.len() {
                        assert(precedes(said, before_out[at as int]));
                        lemma_precedes_total(said, before_out[oj]);
                        if oj != at {
                            assert(!precedes(before_out[oj], before_out[at as int]));
                            lemma_precedes_total(before_out[at as int], before_out[oj]);
                            if precedes(before_out[oj], said) {
                                lemma_precedes_transitive(
                                    before_out[oj],
                                    said,
                                    before_out[at as int],
                                );
                            }
                        }
                    }
                } else if j == at {
                    assert(views(out@)[i] == before_out[i]);
                } else {
                    assert(views(out@)[i] == before_out[oi]);
                    assert(views(out@)[j] == before_out[oj]);
                }
            }
        }
    }
    assert(moved =~= all);
    out
}

proof fn lemma_insert_multiset(list: Seq<Seq<char>>, at: int, text: Seq<char>)
    requires
        0 <= at <= list.len(),
    ensures
        list.insert(at, text).to_multiset() == list.to_multiset().insert(text),
{
    let t = list.insert(at, text);
    t.to_multiset_ensures();
    assert(t.remove(at) =~= list);
    assert(t[at] == text);
    assert(t.to_multiset().count(text) > 0);
    assert(t.to_multiset() =~= t.to_multiset().remove(text).insert(text));
}

/// The words of a text: the runs of characters that are no white space.
pub open spec fn words(s: Seq<char>) -> Seq<Seq<char>>
    decreases s.len(),
{
    if s.len() == 0 {
        Seq::empty()
    } else {
        let head = words(s.drop_last());
        let c = s.last();
        if is_space(c) {
            head
        } else if s.len() == 1 || is_space(s[s.len() - 2]) {
            head.push(seq![c])
        } else {
            head.drop_last().push(head.last().push(c))
        }
    }
}

proof fn lemma_words_nonempty(s: Seq<char>)
    ensures
        s.len() > 0 && !is_space(s.last()) ==> words(s).len() > 0,
    decreases s.len(),
{
    if s.len() > 0 && !is_space(s.last()) && s.len() > 1 && !is_space(s[s.len() - 2]) {
        lemma_words_nonempty(s.drop_last());
    }
}

pub fn split_whitespace(s: &str) -> (r: Vec<String>)
    ensures
        views(r@) == words(s@),
{
    let chars = chars_of(s);
    let mut out: Vec<String> = Vec::new();
    let mut i: usize = 0;
    assert(views(out@) =~= words(chars@.take(0)));
    while i < chars.len()
        invariant
            i <= chars@.len(),
            views(out@) == words(chars@.take(i as int)),
        decreases chars@.len() - i,
    {
        let ghost here = chars@.take(i + 1);
        assert(here.drop_last() =~= chars@.take(i as int));
        let c = chars[i];
        if !is_whitespace(c) {
            let ghost before = views(out@);
            if i == 0 || is_whitespace(chars[i - 1]) {
                let mut word: String = String::new();
                word.push(c);
                let ghost w = word@;
                assert(w =~= seq![c]);
                out.push(word);
                assert(views(out@) =~= before.push(w));
            } else {
                proof {
                    lemma_words_nonempty(chars@.take(i as int));
                    assert(chars@.take(i as int).last() == chars@[i - 1]);
                    assert(views(out@).len() == out@.len());
                }
                let mut word = out.pop().unwrap();
                assert(views(out@) =~= before.drop_last());
                assert(word@ == before.last());
                word.push(c);
                let ghost w = word@;
                out.push(word);
                assert(views(out@) =~= before.drop_last().push(w));
            }
        }
        i = i + 1;
    }
    assert(chars@.take(i as int) =~= s@);
    out
}

/// The length of a text in bytes.
pub open spec fn size(text: Seq<char>) -> int {
    encode_utf8(text).len() as int
}

/// The length of one character in bytes.
pub open spec fn width(c: char) -> int {
    encode_scalar(c as u32).len() as int
}

pub proof fn lemma_size_push(s: Seq<char>, c: char)
    ensures
        encode_utf8(s.push(c)) == encode_utf8(s) + encode_scalar(c as u32),
        size(s.push(c)) == size(s) + width(c),
    decreases s.len(),
{
    let t = s.push(c);
    if s.len() == 0 {
        reveal_with_fuel(encode_utf8, 2);
        assert(t.drop_first() =~= Seq::<char>::empty());
        assert(encode_utf8(t) =~= encode_scalar(c as u32));
        assert(encode_utf8(s) =~= Seq::<u8>::empty());
    } else {
        assert(t.drop_first() =~= s.drop_first().push(c));
        lemma_size_push(s.drop_first(), c);
        assert(encode_utf8(t) =~= encode_utf8(s) + encode_scalar(c as u32));
    }
}

pub fn char_width(c: char) -> (r: usize)
    ensures
        r == width(c),
        1 <= r <= 4,
{
    let u: u32 = c as u32;
    if u <= 0x7f {
        1
    } else if u <= 0x7ff {
        2
    } else if u <= 0xffff {
        3
    } else {
        4
    }
}

/// How many characters of `s` fit into `max` bytes, counted from the `n`-th on.
pub open spec fn fitting(s: Seq<char>, max: int, n: int) -> int
    decreases s.len() - n,
{
    if 0 <= n < s.len() && size(s.take(n + 1)) <= max {
        fitting(s, max, n + 1)
    } else {
        n
    }
}

/// The longest start of `s` that fits into `max` bytes.
pub open spec fn truncated(s: Seq<char>, max: int) -> Seq<char> {
    s.take(fitting(s, max, 0))
}

pub fn truncate(s: &str, max: usize) -> (r: String)
    ensures
        r@ == truncated(s@, max as int),
{
    let chars = chars_of(s);
    let mut i: usize = 0;
    let mut bytes: usize = 0;
    let mut open: bool = true;
    assert(s@.take(0) =~= Seq::<char>::empty());
    while open && i < chars.len()
        invariant
            i <= chars@.len(),
            chars@ == s@,
            bytes <= max,
            bytes == size(s@.take(i as int)),
            fitting(s@, max as int, 0) == fitting(s@, max as int, i as int),
            !open ==> fitting(s@, max as int, i as int) == i,
        decreases chars@.len() - i, if open { 1int } else { 0int },
    {
        let w: usize = char_width(chars[i]);
        proof {
            assert(s@.take(i + 1) =~= s@.take(i as int).push(s@[i as int]));
            lemma_size_push(s@.take(i as int), s@[i as int]);
        }
        if w <= max - bytes {
            bytes = bytes + w;
            i = i + 1;
        } else {
            open = false;
        }
    }
    assert(chars@.subrange(0, i as int) =~= s@.take(i as int));
    string_of(chars.as_slice(), 0, i)
}

/// Only white space is trimmed, and all of it at both ends.
pub proof fn law_only_space_is_trimmed(s: Seq<char>)
    ensures
        exists|from: int, to: int|
            0 <= from <= to <= s.len() && trimmed(s) == #[trigger] s.subrange(from, to) && (forall|i: int|
                0 <= i < from || to <= i < s.len() ==> is_space(#[trigger] s[i])),
        trimmed(s).len() > 0 ==> !is_space(trimmed(s)[0]) && !is_space(trimmed(s).last()),
{
    let from = lemma_trimmed_start(s);
    let t = trimmed_start(s);
    let to = lemma_trimmed_end(t);
    assert(trimmed(s) =~= s.subrange(from, from + to));
    assert forall|i: int| 0 <= i < from || from + to <= i < s.len() implies is_space(
        #[trigger] s[i],
    ) by {
        if i >= from + to {
            assert(t[i - from] == s[i]);
        }
    }
    if to > 0 {
        assert(t[0] == trimmed(s)[0]);
    }
}

proof fn lemma_trimmed_start(s: Seq<char>) -> (from: int)
    ensures
        0 <= from <= s.len(),
        trimmed_start(s) == s.subrange(from, s.len() as int),
        forall|i: int| 0 <= i < from ==> is_space(#[trigger] s[i]),
        from < s.len() ==> !is_space(s[from]),
    decreases s.len(),
{
    if s.len() > 0 && is_space(s[0]) {
        let rest = s.subrange(1, s.len() as int);
        let from = lemma_trimmed_start(rest);
        assert(rest.subrange(from, rest.len() as int) =~= s.subrange(from + 1, s.len() as int));
        assert forall|i: int| 0 <= i < from + 1 implies is_space(#[trigger] s[i]) by {
            if i > 0 {
                assert(rest[i - 1] == s[i]);
            }
        }
        from + 1
    } else {
        assert(s.subrange(0, s.len() as int) =~= s);
        0
    }
}

proof fn lemma_trimmed_end(s: Seq<char>) -> (to: int)
    ensures
        0 <= to <= s.len(),
        trimmed_end(s) == s.take(to),
        forall|i: int| to <= i < s.len() ==> is_space(#[trigger] s[i]),
        to > 0 ==> !is_space(s[to - 1]),
    decreases s.len(),
{
    if s.len() > 0 && is_space(s.last()) {
        let init = s.drop_last();
        let to = lemma_trimmed_end(init);
        assert(init.take(to) =~= s.take(to));
        assert forall|i: int| to <= i < s.len() implies is_space(#[trigger] s[i]) by {
            if i < init.len() {
                assert(init[i] == s[i]);
            }
        }
        to
    } else {
        assert(s.take(s.len() as int) =~= s);
        s.len() as int
    }
}

/// Only the one character is trimmed off the end, and as often as it stands there.
pub proof fn law_only_the_character_is_trimmed(s: Seq<char>, c: char)
    ensures
        trimmed_of(s, c).len() <= s.len(),
        trimmed_of(s, c) == s.take(trimmed_of(s, c).len() as int),
        forall|i: int| trimmed_of(s, c).len() <= i < s.len() ==> #[trigger] s[i] == c,
        trimmed_of(s, c).len() > 0 ==> trimmed_of(s, c).last() != c,
    decreases s.len(),
{
    if s.len() > 0 && s.last() == c {
        let init = s.drop_last();
        law_only_the_character_is_trimmed(init, c);
        let n = trimmed_of(s, c).len() as int;
        assert(init.take(n) =~= s.take(n));
        assert forall|i: int| n <= i < s.len() implies #[trigger] s[i] == c by {
            if i < init.len() {
                assert(init[i] == s[i]);
            }
        }
    } else {
        assert(s.take(s.len() as int) =~= s);
    }
}

/// Only the one character is trimmed off the front, and as often as it stands there.
pub proof fn law_only_the_character_is_trimmed_in_front(s: Seq<char>, c: char)
    ensures
        trimmed_front(s, c).len() <= s.len(),
        trimmed_front(s, c) == s.skip(s.len() - trimmed_front(s, c).len()),
        forall|i: int| 0 <= i < s.len() - trimmed_front(s, c).len() ==> #[trigger] s[i] == c,
        trimmed_front(s, c).len() > 0 ==> trimmed_front(s, c)[0] != c,
    decreases s.len(),
{
    if s.len() > 0 && s[0] == c {
        let rest = s.subrange(1, s.len() as int);
        law_only_the_character_is_trimmed_in_front(rest, c);
        let n = trimmed_front(s, c).len() as int;
        assert(rest.skip(rest.len() - n) =~= s.skip(s.len() - n));
        assert forall|i: int| 0 <= i < s.len() - n implies #[trigger] s[i] == c by {
            if i > 0 {
                assert(rest[i - 1] == s[i]);
            }
        }
    } else {
        assert(s.skip(0) =~= s);
    }
}

/// The first place of a text is one where it stands, and it stands at none before.
pub proof fn law_first_place_is_the_first(s: Seq<char>, needle: Seq<char>, from: int)
    requires
        0 <= from,
    ensures
        match first_at(s, needle, from) {
            Some(i) => from <= i && occurs_at(s, needle, i) && forall|j: int|
                from <= j < i ==> !#[trigger] occurs_at(s, needle, j),
            None => forall|j: int| from <= j ==> !#[trigger] occurs_at(s, needle, j),
        },
    decreases s.len() - from + 1,
{
    if from + needle.len() <= s.len() && !occurs_at(s, needle, from) {
        law_first_place_is_the_first(s, needle, from + 1);
    }
}

/// Cutting a text at a separator loses nothing, and the separator is cut where it
/// first stands.
pub proof fn law_cut_text_is_put_together(s: Seq<char>, sep: Seq<char>)
    ensures
        cut(s, sep) is Some <==> occurs(s, sep),
        cut(s, sep) matches Some(halves) ==> halves.0 + sep + halves.1 == s && forall|j: int|
            0 <= j < halves.0.len() ==> !#[trigger] occurs_at(s, sep, j),
{
    law_first_place_is_the_first(s, sep, 0);
    if let Some(i) = first_at(s, sep, 0) {
        assert(s.subrange(0, i) + sep + s.subrange(i + sep.len(), s.len() as int) =~= s) by {
            assert(s.subrange(i, i + sep.len()) =~= sep);
            assert forall|k: int| i <= k < i + sep.len() implies sep[k - i] == #[trigger] s[k] by {
                assert(s.subrange(i, i + sep.len())[k - i] == s[k]);
            }
        }
    }
}

/// The last place of a character is one where it stands, and it stands at none
/// behind.
pub proof fn law_last_place_is_the_last(s: Seq<char>, c: char)
    ensures
        match last_index(s, c) {
            Some(i) => 0 <= i < s.len() && s[i] == c && forall|j: int|
                i < j < s.len() ==> #[trigger] s[j] != c,
            None => forall|j: int| 0 <= j < s.len() ==> #[trigger] s[j] != c,
        },
    decreases s.len(),
{
    if s.len() > 0 && s.last() != c {
        let init = s.drop_last();
        law_last_place_is_the_last(init, c);
        assert forall|j: int| 0 <= j < init.len() implies #[trigger] s[j] == init[j] by {}
    }
}

/// What is split at a character is put together again by joining it, and no part
/// holds the character.
pub proof fn law_split_is_joined_again(s: Seq<char>, sep: char)
    ensures
        joined(parts_of(s, sep), seq![sep]) == s,
        forall|k: int|
            0 <= k < parts_of(s, sep).len() ==> !(#[trigger] parts_of(s, sep)[k]).contains(sep),
    decreases s.len(),
{
    let parts = parts_of(s, sep);
    if s.len() == 0 {
        assert(parts[0] =~= s);
    } else {
        let init = s.drop_last();
        let head = parts_of(init, sep);
        law_split_is_joined_again(init, sep);
        lemma_parts_nonempty(init, sep);
        assert(init.push(s.last()) =~= s);
        if s.last() == sep {
            assert(parts.drop_last() =~= head);
            assert(joined(parts, seq![sep]) =~= s);
        } else {
            assert(parts.drop_last() =~= head.drop_last());
            lemma_joined_last(head, seq![sep], s.last());
            assert(joined(parts, seq![sep]) =~= s);
            let last = head.last();
            assert(!head[head.len() - 1].contains(sep));
            assert(!last.push(s.last()).contains(sep)) by {
                assert forall|i: int| 0 <= i < last.push(s.last()).len() implies last.push(
                    s.last(),
                )[i] != sep by {
                    if i < last.len() {
                        assert(last.contains(last[i]));
                    }
                }
            }
        }
        assert forall|k: int| 0 <= k < parts.len() implies !(#[trigger] parts[k]).contains(sep) by {
            if k < parts.len() - 1 {
                assert(parts[k] == head[k]);
            }
        }
    }
}

proof fn lemma_joined_last(head: Seq<Seq<char>>, sep: Seq<char>, c: char)
    requires
        head.len() > 0,
    ensures
        joined(head.drop_last().push(head.last().push(c)), sep) == joined(head, sep).push(c),
{
    let more = head.drop_last().push(head.last().push(c));
    assert(more.drop_last() =~= head.drop_last());
    if head.len() == 1 {
        assert(more[0] == head[0].push(c));
    } else {
        assert(joined(more, sep) =~= joined(head, sep).push(c));
    }
}

/// Joining puts the separator between the parts, and nowhere else.
pub proof fn law_separator_stands_between(parts: Seq<Seq<char>>, part: Seq<char>, sep: Seq<char>)
    ensures
        joined(Seq::empty(), sep).len() == 0,
        joined(seq![part], sep) == part,
        parts.len() > 0 ==> joined(parts.push(part), sep) == joined(parts, sep) + sep + part,
{
    assert(parts.push(part).drop_last() =~= parts);
}

/// The words of a text hold no white space, and all of its other characters, in
/// order.
pub proof fn law_words_hold_the_rest(s: Seq<char>)
    ensures
        words(s).flatten() == s.filter(|c: char| !is_space(c)),
        forall|k: int|
            0 <= k < words(s).len() ==> (#[trigger] words(s)[k]).len() > 0 && forall|i: int|
                0 <= i < words(s)[k].len() ==> !is_space(#[trigger] words(s)[k][i]),
    decreases s.len(),
{
    reveal(Seq::filter);
    let list = words(s);
    if s.len() == 0 {
        assert(list.flatten() =~= Seq::<char>::empty());
    } else {
        let init = s.drop_last();
        let head = words(init);
        let c = s.last();
        law_words_hold_the_rest(init);
        lemma_words_nonempty(init);
        if !is_space(c) {
            if s.len() == 1 || is_space(s[s.len() - 2]) {
                assert(list =~= head.push(seq![c]));
                lemma_flatten_more(head, seq![c]);
            } else {
                assert(init.last() == s[s.len() - 2]);
                assert(head.drop_last().push(head.last()) =~= head);
                lemma_flatten_more(head.drop_last(), head.last());
                lemma_flatten_more(head.drop_last(), head.last().push(c));
                assert(list.flatten() =~= head.flatten().push(c));
                let last = head.last();
                assert(head[head.len() - 1] == last);
                assert forall|i: int| 0 <= i < last.push(c).len() implies !is_space(
                    #[trigger] last.push(c)[i],
                ) by {
                    if i < last.len() {
                        assert(last.push(c)[i] == last[i]);
                    }
                }
            }
            assert(list.flatten() =~= head.flatten().push(c));
        }
        assert forall|k: int| 0 <= k < list.len() implies (#[trigger] list[k]).len() > 0 && forall|i: int|
            0 <= i < list[k].len() ==> !is_space(#[trigger] list[k][i]) by {
            if k < head.len() && list[k] == head[k] {
                assert(head[k].len() > 0);
            }
        }
    }
}

proof fn lemma_flatten_more(list: Seq<Seq<char>>, more: Seq<char>)
    ensures
        list.push(more).flatten() == list.flatten() + more,
    decreases list.len(),
{
    let whole = list.push(more);
    if list.len() == 0 {
        assert(whole.drop_first() =~= Seq::<Seq<char>>::empty());
        reveal_with_fuel(Seq::flatten, 2);
        assert(whole.flatten() =~= more);
    } else {
        assert(whole.drop_first() =~= list.drop_first().push(more));
        lemma_flatten_more(list.drop_first(), more);
        assert(whole.flatten() =~= list.flatten() + more);
    }
}

/// What the digits say, read from the left.
pub open spec fn numeral(digits: Seq<char>) -> int
    decreases digits.len(),
{
    if digits.len() == 0 {
        0
    } else {
        10 * numeral(digits.drop_last()) + (digits.last() as int - '0' as int)
    }
}

/// A number is written in digits that say it, without a leading zero.
pub proof fn law_digits_say_the_number(n: nat)
    ensures
        numeral(decimal(n)) == n,
        decimal(n).len() > 0,
        n >= 10 ==> decimal(n)[0] != '0',
        0 < n < 10 ==> decimal(n)[0] != '0',
        forall|i: int| 0 <= i < decimal(n).len() ==> '0' <= #[trigger] decimal(n)[i] <= '9',
    decreases n,
{
    let text = decimal(n);
    assert(text.last() as int == 48 + n % 10);
    if n < 10 {
        reveal_with_fuel(numeral, 2);
        assert(text.drop_last() =~= Seq::<char>::empty());
    } else {
        law_digits_say_the_number(n / 10);
        assert(text.drop_last() =~= decimal(n / 10));
        assert forall|i: int| 0 <= i < text.len() implies '0' <= #[trigger] text[i] <= '9' by {
            if i < text.len() - 1 {
                assert(text[i] == decimal(n / 10)[i]);
            }
        }
        assert(text[0] == decimal(n / 10)[0]);
    }
}

/// A text that is cut short is the longest beginning that fits.
pub proof fn law_as_much_as_fits_is_kept(s: Seq<char>, max: int)
    requires
        0 <= max,
    ensures
        truncated(s, max).len() <= s.len(),
        truncated(s, max) == s.take(truncated(s, max).len() as int),
        size(truncated(s, max)) <= max,
        truncated(s, max).len() < s.len() ==> size(s.take(truncated(s, max).len() as int + 1)) > max,
{
    assert(s.take(0) =~= Seq::<char>::empty());
    assert(encode_utf8(Seq::<char>::empty()) =~= Seq::<u8>::empty());
    lemma_fitting(s, max, 0);
}

proof fn lemma_fitting(s: Seq<char>, max: int, n: int)
    requires
        0 <= n <= s.len(),
        size(s.take(n)) <= max,
    ensures
        n <= fitting(s, max, n) <= s.len(),
        size(s.take(fitting(s, max, n))) <= max,
        fitting(s, max, n) < s.len() ==> size(s.take(fitting(s, max, n) + 1)) > max,
    decreases s.len() - n,
{
    if n < s.len() && size(s.take(n + 1)) <= max {
        lemma_fitting(s, max, n + 1);
    }
}

/// The first characters of a text are its beginning and the last ones its end, as
/// many as were asked for or all there are.
pub proof fn law_as_many_characters_as_asked(s: Seq<char>, count: int)
    requires
        0 <= count,
    ensures
        first_chars(s, count).len() == (if s.len() < count {
            s.len() as int
        } else {
            count
        }),
        last_chars(s, count).len() == first_chars(s, count).len(),
        starts(s, first_chars(s, count)),
        ends(s, last_chars(s, count)),
{
    let n = first_chars(s, count).len() as int;
    assert(s.subrange(0, n) =~= first_chars(s, count));
    assert(s.subrange(s.len() - n, s.len() as int) =~= last_chars(s, count));
}

/// A prefix is taken off in front and a suffix off the end, and nothing else is.
pub proof fn law_what_was_put_on_is_taken_off(s: Seq<char>, part: Seq<char>)
    ensures
        behind(part + s, part) == Some(s),
        before(s + part, part) == Some(s),
        behind(s, part) matches Some(rest) ==> part + rest == s,
        before(s, part) matches Some(rest) ==> rest + part == s,
{
    let front = part + s;
    let back = s + part;
    assert(front.subrange(0, part.len() as int) =~= part);
    assert(front.subrange(part.len() as int, front.len() as int) =~= s);
    assert(back.subrange(back.len() - part.len(), back.len() as int) =~= part);
    assert(back.subrange(0, back.len() - part.len()) =~= s);
    if let Some(rest) = behind(s, part) {
        assert(s.subrange(0, part.len() as int) + rest =~= s);
    }
    if let Some(rest) = before(s, part) {
        assert(rest + s.subrange(s.len() - part.len(), s.len() as int) =~= s);
    }
}

/// Texts are ordered by the first character in which they differ, and a beginning
/// stands before what continues it.
pub proof fn law_first_difference_decides(common: Seq<char>, a: Seq<char>, b: Seq<char>)
    ensures
        b.len() > 0 ==> precedes(common, common + b),
        a.len() > 0 && b.len() > 0 && a[0] != b[0] ==> (precedes(common + a, common + b) <==> a[0]
            < b[0]),
        !precedes(common + a, common),
    decreases common.len(),
{
    if common.len() > 0 {
        let rest = common.subrange(1, common.len() as int);
        law_first_difference_decides(rest, a, b);
        assert((common + a).subrange(1, (common + a).len() as int) =~= rest + a);
        assert((common + b).subrange(1, (common + b).len() as int) =~= rest + b);
        assert((common + a)[0] == common[0] && (common + b)[0] == common[0]);
    } else {
        assert(common + a =~= a);
        assert(common + b =~= b);
    }
}

/// Changing the case touches the twenty-six letters alone: capitals become small and
/// small ones capitals, and back again.
pub proof fn law_case_is_changed_and_back(c: char)
    ensures
        'A' <= c <= 'Z' ==> 'a' <= ascii_lower(c) <= 'z' && ascii_upper(ascii_lower(c)) == c,
        'a' <= c <= 'z' ==> 'A' <= ascii_upper(c) <= 'Z' && ascii_lower(ascii_upper(c)) == c,
        !('A' <= c <= 'Z') ==> ascii_lower(c) == c,
        !('a' <= c <= 'z') ==> ascii_upper(c) == c,
{
}

} // verus!
