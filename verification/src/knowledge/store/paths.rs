//! Paths as texts: their parts, and what is made of them.

use crate::text::{
    cat2, cat3, join, joined, law_split_is_joined_again, lemma_parts_nonempty, parts_of, split, str_eq, views,
};
use vstd::prelude::*;
use vstd::string::*;

verus! {

/// A part of a path.
#[verifier::ext_equal]
#[derive(Debug)]
pub enum Part<T> {
    Root,
    Current,
    Parent,
    Name(T),
}

impl View for Part<String> {
    type V = Part<Seq<char>>;

    open spec fn view(&self) -> Part<Seq<char>> {
        match *self {
            Part::Root => Part::Root,
            Part::Current => Part::Current,
            Part::Parent => Part::Parent,
            Part::Name(name) => Part::Name(name@),
        }
    }
}

pub open spec fn part_views(parts: Seq<Part<String>>) -> Seq<Part<Seq<char>>> {
    parts.map_values(|part: Part<String>| part@)
}

/// The parts that the pieces between the slashes stand for. Empty ones and dots
/// stand for nothing, but for a dot at the beginning.
pub open spec fn parts_in(pieces: Seq<Seq<char>>) -> Seq<Part<Seq<char>>>
    decreases pieces.len(),
{
    if pieces.len() == 0 {
        Seq::empty()
    } else {
        let head = parts_in(pieces.drop_last());
        let piece = pieces.last();
        if piece.len() == 0 {
            head
        } else if piece == "."@ {
            if pieces.len() == 1 {
                head.push(Part::Current)
            } else {
                head
            }
        } else if piece == ".."@ {
            head.push(Part::Parent)
        } else {
            head.push(Part::Name(piece))
        }
    }
}

pub open spec fn is_absolute(path: Seq<char>) -> bool {
    path.len() > 0 && path[0] == '/'
}

/// The parts of a path. Two paths with the same parts are the same.
pub open spec fn components(path: Seq<char>) -> Seq<Part<Seq<char>>> {
    let named = parts_in(parts_of(path, '/'));
    if is_absolute(path) {
        seq![Part::Root] + named
    } else {
        named
    }
}

/// Whether a path begins at the root.
pub fn starts_at_root(path: &str) -> (r: bool)
    ensures
        r == is_absolute(path@),
{
    let chars = crate::text::chars_of(path);
    chars.len() > 0 && chars[0] == '/'
}

pub fn components_of(path: &str) -> (r: Vec<Part<String>>)
    ensures
        part_views(r@) == components(path@),
{
    let pieces = split(path, '/');
    let ghost all = parts_of(path@, '/');
    let mut named: Vec<Part<String>> = Vec::new();
    let mut i: usize = 0;
    assert(all.take(0) =~= Seq::<Seq<char>>::empty());
    assert(part_views(named@) =~= Seq::<Part<Seq<char>>>::empty());
    while i < pieces.len()
        invariant
            i <= pieces@.len(),
            all == views(pieces@),
            part_views(named@) == parts_in(all.take(i as int)),
        decreases pieces@.len() - i,
    {
        assert(all.take(i + 1).drop_last() =~= all.take(i as int));
        assert(all.take(i + 1).last() == pieces@[i as int]@);
        let piece = pieces[i].as_str();
        let ghost before = named@;
        if piece.is_empty() {
        } else if str_eq(piece, ".") {
            if i == 0 {
                named.push(Part::Current);
                assert(part_views(named@) =~= part_views(before).push(Part::Current));
            }
        } else if str_eq(piece, "..") {
            named.push(Part::Parent);
            assert(part_views(named@) =~= part_views(before).push(Part::Parent));
        } else {
            named.push(Part::Name(pieces[i].clone()));
            assert(part_views(named@) =~= part_views(before).push(Part::Name(piece@)));
        }
        i = i + 1;
    }
    assert(all.take(i as int) =~= all);
    if starts_at_root(path) {
        let ghost before = named@;
        named.insert(0, Part::Root);
        assert(part_views(named@) =~= seq![Part::Root] + part_views(before));
    }
    named
}

fn same_part(a: &Part<String>, b: &Part<String>) -> (r: bool)
    ensures
        r == (a@ == b@),
{
    match (a, b) {
        (Part::Root, Part::Root) => true,
        (Part::Current, Part::Current) => true,
        (Part::Parent, Part::Parent) => true,
        (Part::Name(x), Part::Name(y)) => str_eq(x.as_str(), y.as_str()),
        _ => false,
    }
}

/// The beginning of a list of parts.
pub(crate) fn begins_with(parts: &Vec<Part<String>>, prefix: &Vec<Part<String>>) -> (r: bool)
    ensures
        r == part_views(prefix@).is_prefix_of(part_views(parts@)),
{
    let ghost a = part_views(parts@);
    let ghost b = part_views(prefix@);
    if prefix.len() > parts.len() {
        return false;
    }
    let mut i: usize = 0;
    while i < prefix.len()
        invariant
            i <= prefix@.len() <= parts@.len(),
            a == part_views(parts@),
            b == part_views(prefix@),
            forall|k: int| 0 <= k < i ==> #[trigger] b[k] == a[k],
        decreases prefix@.len() - i,
    {
        assert(b[i as int] == prefix@[i as int]@);
        assert(a[i as int] == parts@[i as int]@);
        if !same_part(&prefix[i], &parts[i]) {
            return false;
        }
        i = i + 1;
    }
    assert(b =~= a.subrange(0, b.len() as int));
    true
}

pub fn same_path(a: &str, b: &str) -> (r: bool)
    ensures
        r == (components(a@) == components(b@)),
{
    let x = components_of(a);
    let y = components_of(b);
    let same = x.len() == y.len() && begins_with(&x, &y);
    proof {
        if part_views(x@).len() == part_views(y@).len() && part_views(y@).is_prefix_of(part_views(x@)) {
            assert(part_views(x@).subrange(0, part_views(y@).len() as int) =~= part_views(x@));
        }
        if part_views(x@) == part_views(y@) {
            assert(part_views(x@).subrange(0, part_views(y@).len() as int) =~= part_views(x@));
        }
    }
    same
}

/// How a part is written.
pub open spec fn part_text(part: Part<Seq<char>>) -> Seq<char> {
    match part {
        Part::Root => Seq::empty(),
        Part::Current => "."@,
        Part::Parent => ".."@,
        Part::Name(name) => name,
    }
}

/// The piece that a part stands in, counted from the first part behind the root;
/// the number of pieces where there is no such part.
pub open spec fn piece_of(pieces: Seq<Seq<char>>, part: int) -> int
    decreases pieces.len(),
{
    if pieces.len() == 0 {
        0
    } else if part < parts_in(pieces.drop_last()).len() {
        piece_of(pieces.drop_last(), part)
    } else if part < parts_in(pieces).len() {
        pieces.len() - 1
    } else {
        pieces.len() as int
    }
}

/// How many parts a path has behind the root.
pub open spec fn depth(path: Seq<char>) -> nat {
    parts_in(parts_of(path, '/')).len()
}

/// The beginning of a path, down to as many parts, as it is written.
pub open spec fn text_down_to(path: Seq<char>, count: int) -> Seq<char> {
    let pieces = parts_of(path, '/');
    if count <= 0 {
        if is_absolute(path) {
            "/"@
        } else {
            Seq::empty()
        }
    } else {
        joined(pieces.take(piece_of(pieces, count - 1) + 1), "/"@)
    }
}

/// What stands behind as many parts of a path, as it is written.
pub open spec fn text_behind(path: Seq<char>, count: int) -> Seq<char> {
    let pieces = parts_of(path, '/');
    if count >= depth(path) {
        Seq::empty()
    } else {
        joined(
            pieces.subrange(piece_of(pieces, count), piece_of(pieces, depth(path) - 1) + 1),
            "/"@,
        )
    }
}

/// The pieces in which the parts of a path stand.
fn places_of(pieces: &Vec<String>) -> (r: Vec<usize>)
    ensures
        r@.len() == parts_in(views(pieces@)).len(),
        forall|k: int|
            0 <= k < r@.len() ==> #[trigger] r@[k] < pieces@.len() && r@[k] == piece_of(
                views(pieces@),
                k,
            ),
        forall|k: int, m: int| 0 <= k <= m < r@.len() ==> #[trigger] r@[k] <= #[trigger] r@[m],
{
    let ghost all = views(pieces@);
    let mut out: Vec<usize> = Vec::new();
    let mut i: usize = 0;
    assert(all.take(0) =~= Seq::<Seq<char>>::empty());
    while i < pieces.len()
        invariant
            i <= pieces@.len(),
            all == views(pieces@),
            out@.len() == parts_in(all.take(i as int)).len(),
            forall|k: int|
                0 <= k < out@.len() ==> #[trigger] out@[k] < i && out@[k] == piece_of(
                    all.take(i as int),
                    k,
                ),
            forall|k: int, m: int|
                0 <= k <= m < out@.len() ==> #[trigger] out@[k] <= #[trigger] out@[m],
        decreases pieces@.len() - i,
    {
        assert(all.take(i + 1).drop_last() =~= all.take(i as int));
        assert(all.take(i + 1).last() == pieces@[i as int]@);
        let piece = pieces[i].as_str();
        if !piece.is_empty() && (i == 0 || !str_eq(piece, ".")) {
            out.push(i);
        }
        i = i + 1;
    }
    assert(all.take(i as int) =~= all);
    out
}

/// Some of the pieces, with slashes between them.
fn join_pieces(pieces: &Vec<String>, from: usize, to: usize) -> (r: String)
    requires
        from <= to <= pieces@.len(),
    ensures
        r@ == joined(views(pieces@).subrange(from as int, to as int), "/"@),
{
    let ghost chosen = views(pieces@).subrange(from as int, to as int);
    let mut out: Vec<String> = Vec::new();
    let mut i: usize = from;
    assert(views(out@) =~= chosen.take(0));
    while i < to
        invariant
            from <= i <= to <= pieces@.len(),
            chosen == views(pieces@).subrange(from as int, to as int),
            views(out@) == chosen.take(i - from),
        decreases to - i,
    {
        let ghost before = out@;
        out.push(pieces[i].clone());
        assert(views(out@) =~= views(before).push(pieces@[i as int]@));
        assert(chosen.take(i + 1 - from) =~= chosen.take(i - from).push(pieces@[i as int]@));
        i = i + 1;
    }
    assert(chosen.take(to - from) =~= chosen);
    join(out.as_slice(), "/")
}

/// How many parts a path has behind the root.
pub fn depth_of(path: &str) -> (r: usize)
    ensures
        r == depth(path@),
{
    places_of(&split(path, '/')).len()
}

pub fn take_down_to(path: &str, count: usize) -> (r: String)
    requires
        count <= depth(path@),
    ensures
        r@ == text_down_to(path@, count as int),
{
    if count == 0 {
        return if starts_at_root(path) {
            "/".to_owned()
        } else {
            String::new()
        };
    }
    let pieces = split(path, '/');
    let places = places_of(&pieces);
    let last: usize = places[count - 1];
    assert(views(pieces@).subrange(0, last + 1) =~= views(pieces@).take(last + 1));
    join_pieces(&pieces, 0, last + 1)
}

fn take_behind(path: &str, count: usize) -> (r: String)
    ensures
        r@ == text_behind(path@, count as int),
{
    let pieces = split(path, '/');
    let places = places_of(&pieces);
    if count >= places.len() {
        return String::new();
    }
    let first: usize = places[count];
    let last: usize = places[places.len() - 1];
    join_pieces(&pieces, first, last + 1)
}

/// A path below another one.
pub open spec fn joined_path(base: Seq<char>, path: Seq<char>) -> Seq<char> {
    if is_absolute(path) {
        path
    } else if base.len() == 0 || base.last() == '/' {
        base + path
    } else {
        base + "/"@ + path
    }
}

pub fn join_path(base: &str, path: &str) -> (r: String)
    ensures
        r@ == joined_path(base@, path@),
{
    if starts_at_root(path) {
        return path.to_owned();
    }
    let chars = crate::text::chars_of(base);
    let len: usize = chars.len();
    if len == 0 || chars[len - 1] == '/' {
        cat2(base, path)
    } else {
        cat3(base, "/", path)
    }
}

/// What is left of a path behind a directory, if it is below it.
pub open spec fn stripped(path: Seq<char>, base: Seq<char>) -> Option<Seq<char>> {
    let prefix = components(base);
    if !prefix.is_prefix_of(components(path)) {
        None
    } else if prefix.len() == 0 {
        Some(text_down_to(path, depth(path) as int))
    } else if is_absolute(path) {
        Some(text_behind(path, prefix.len() - 1))
    } else {
        Some(text_behind(path, prefix.len() as int))
    }
}

pub fn strip_base(path: &str, base: &str) -> (r: Option<String>)
    ensures
        crate::text::opt_view(r) == stripped(path@, base@),
{
    let parts = components_of(path);
    let prefix = components_of(base);
    assert(part_views(parts@).len() == parts@.len());
    assert(part_views(prefix@).len() == prefix@.len());
    if !begins_with(&parts, &prefix) {
        None
    } else if prefix.len() == 0 {
        let count: usize = if starts_at_root(path) {
            parts.len() - 1
        } else {
            parts.len()
        };
        Some(take_down_to(path, count))
    } else if starts_at_root(path) {
        Some(take_behind(path, prefix.len() - 1))
    } else {
        Some(take_behind(path, prefix.len()))
    }
}

/// The name of what a path leads to.
pub open spec fn name_in(parts: Seq<Part<Seq<char>>>) -> Option<Seq<char>> {
    if parts.len() > 0 && parts.last() is Name {
        Some(parts.last()->Name_0)
    } else {
        None
    }
}

/// Another name in the same directory.
pub open spec fn beside(path: Seq<char>, name: Seq<char>) -> Seq<char> {
    joined_path(text_down_to(path, depth(path) - 1), name)
}

/// The name at the end of a path, with what stands before it.
pub fn split_name(path: &str) -> (r: Option<(String, String)>)
    ensures
        match r {
            Some((dir, name)) => {
                &&& name_in(components(path@)) == Some(name@)
                &&& dir@ == text_down_to(path@, depth(path@) - 1)
            },
            None => name_in(components(path@)) is None,
        },
{
    let parts = components_of(path);
    let ghost all = components(path@);
    let len: usize = parts.len();
    assert(all.len() == len);
    if len == 0 {
        return None;
    }
    assert(all.last() == parts@[len - 1]@);
    let name = match &parts[len - 1] {
        Part::Name(name) => name.clone(),
        _ => return None,
    };
    let above: usize = if starts_at_root(path) {
        len - 1
    } else {
        len
    };
    assert(above == depth(path@));
    assert(above > 0);
    let dir = take_down_to(path, above - 1);
    Some((dir, name))
}

/// Whether two paths lead into the same directory.
pub open spec fn same_dir(a: Seq<char>, b: Seq<char>) -> bool {
    components(a).drop_last() == components(b).drop_last()
}

pub fn in_same_dir(a: &str, b: &str) -> (r: bool)
    requires
        components(a@).len() > 0,
        components(b@).len() > 0,
    ensures
        r == same_dir(a@, b@),
{
    let mut x = components_of(a);
    let mut y = components_of(b);
    let ghost ax = part_views(x@);
    let ghost by = part_views(y@);
    assert(ax.len() == x@.len() && by.len() == y@.len());
    x.pop();
    y.pop();
    assert(part_views(x@) =~= ax.drop_last());
    assert(part_views(y@) =~= by.drop_last());
    let same = x.len() == y.len() && begins_with(&x, &y);
    proof {
        if part_views(x@).len() == part_views(y@).len() && part_views(y@).is_prefix_of(part_views(x@)) {
            assert(part_views(x@).subrange(0, part_views(y@).len() as int) =~= part_views(x@));
        }
        if part_views(x@) == part_views(y@) {
            assert(part_views(x@).subrange(0, part_views(y@).len() as int) =~= part_views(x@));
        }
    }
    same
}

/// A path that leads down only: it is not empty, and each part is a name.
pub open spec fn leads_down(path: Seq<char>) -> bool {
    path.len() > 0 && forall|i: int|
        0 <= i < components(path).len() ==> #[trigger] components(path)[i] is Name
}

pub fn is_relative_down(path: &str) -> (r: bool)
    ensures
        r == leads_down(path@),
{
    if path.is_empty() {
        return false;
    }
    let parts = components_of(path);
    let ghost all = components(path@);
    assert(all.len() == parts@.len());
    let mut i: usize = 0;
    while i < parts.len()
        invariant
            i <= parts@.len(),
            all == components(path@),
            all == part_views(parts@),
            forall|k: int| 0 <= k < i ==> #[trigger] all[k] is Name,
        decreases parts@.len() - i,
    {
        assert(all[i as int] == parts@[i as int]@);
        match &parts[i] {
            Part::Name(_) => {},
            _ => return false,
        }
        i = i + 1;
    }
    true
}

proof fn lemma_pieces_concat(a: Seq<char>, b: Seq<char>)
    ensures
        parts_of(a.push('/') + b, '/') == parts_of(a, '/') + parts_of(b, '/'),
    decreases b.len(),
{
    lemma_parts_nonempty(b, '/');
    if b.len() == 0 {
        assert(a.push('/') + b =~= a.push('/'));
        assert(a.push('/').drop_last() =~= a);
        assert(parts_of(a, '/').push(Seq::empty()) =~= parts_of(a, '/') + seq![Seq::<char>::empty()]);
    } else {
        let init = b.drop_last();
        lemma_pieces_concat(a, init);
        lemma_parts_nonempty(init, '/');
        let whole = a.push('/') + b;
        assert(whole.drop_last() =~= a.push('/') + init);
        assert(whole.last() == b.last());
        let head = parts_of(a, '/') + parts_of(init, '/');
        assert(head.last() == parts_of(init, '/').last());
        assert(parts_of(whole, '/') =~= parts_of(a, '/') + parts_of(b, '/'));
    }
}

proof fn lemma_piece_alone(piece: Seq<char>)
    requires
        !piece.contains('/'),
    ensures
        parts_of(piece, '/') == seq![piece],
    decreases piece.len(),
{
    if piece.len() > 0 {
        let init = piece.drop_last();
        assert(piece.last() != '/') by {
            assert(piece[piece.len() - 1] == piece.last());
        }
        assert(!init.contains('/')) by {
            if init.contains('/') {
                let i = choose|i: int| 0 <= i < init.len() && init[i] == '/';
                assert(piece[i] == '/');
            }
        }
        lemma_piece_alone(init);
        assert(init.push(piece.last()) =~= piece);
        assert(parts_of(piece, '/') =~= seq![piece]);
    } else {
        assert(piece =~= Seq::<char>::empty());
    }
}

proof fn lemma_pieces_of_joined(pieces: Seq<Seq<char>>)
    requires
        pieces.len() > 0,
        forall|i: int| 0 <= i < pieces.len() ==> !(#[trigger] pieces[i]).contains('/'),
    ensures
        parts_of(joined(pieces, "/"@), '/') == pieces,
    decreases pieces.len(),
{
    reveal_strlit("/");
    assert(!pieces[pieces.len() - 1].contains('/'));
    lemma_piece_alone(pieces.last());
    if pieces.len() == 1 {
        assert(seq![pieces[0]] =~= pieces);
    } else {
        let init = pieces.drop_last();
        lemma_pieces_of_joined(init);
        assert(joined(init, "/"@) + "/"@ =~= joined(init, "/"@).push('/'));
        lemma_pieces_concat(joined(init, "/"@), pieces.last());
        assert(init + seq![pieces.last()] =~= pieces);
    }
}

proof fn lemma_pieces_have_no_slash(s: Seq<char>)
    ensures
        forall|i: int|
            0 <= i < parts_of(s, '/').len() ==> !(#[trigger] parts_of(s, '/')[i]).contains('/'),
    decreases s.len(),
{
    if s.len() > 0 {
        let init = s.drop_last();
        lemma_pieces_have_no_slash(init);
        lemma_parts_nonempty(init, '/');
        let head = parts_of(init, '/');
        let all = parts_of(s, '/');
        assert forall|i: int| 0 <= i < all.len() implies !(#[trigger] all[i]).contains('/') by {
            if s.last() == '/' {
                if i < head.len() {
                    assert(all[i] == head[i]);
                }
            } else if i < head.len() - 1 {
                assert(all[i] == head[i]);
            } else {
                assert(!head[head.len() - 1].contains('/'));
                let grown = head.last().push(s.last());
                assert(all[i] == grown);
                if grown.contains('/') {
                    let j = choose|j: int| 0 <= j < grown.len() && grown[j] == '/';
                    if j < head.last().len() {
                        assert(head.last()[j] == '/');
                    }
                }
            }
        }
    }
}

proof fn lemma_first_name(names: Seq<Seq<char>>)
    requires
        names.len() > 0,
        names[0].len() > 0,
    ensures
        joined(names, "/"@).len() > 0,
        joined(names, "/"@)[0] == names[0][0],
    decreases names.len(),
{
    if names.len() > 1 {
        lemma_first_name(names.drop_last());
    }
}

proof fn lemma_parts_concat(a: Seq<Seq<char>>, b: Seq<Seq<char>>)
    requires
        a.len() == 0 || b.len() == 0 || b[0] != "."@,
    ensures
        parts_in(a + b) == parts_in(a) + parts_in(b),
    decreases b.len(),
{
    if a.len() == 0 {
        assert(a + b =~= b);
        assert(parts_in(a) + parts_in(b) =~= parts_in(b));
    } else if b.len() == 0 {
        assert(a + b =~= a);
        assert(parts_in(a) + parts_in(b) =~= parts_in(a));
    } else {
        let init = b.drop_last();
        lemma_parts_concat(a, init);
        assert((a + b).drop_last() =~= a + init);
        assert((a + b).last() == b.last());
        assert(parts_in(a + b) =~= parts_in(a) + parts_in(b));
    }
}

proof fn lemma_piece_of(pieces: Seq<Seq<char>>, part: int)
    requires
        0 <= part < parts_in(pieces).len(),
    ensures
        ({
            let at = piece_of(pieces, part);
            &&& 0 <= at < pieces.len()
            &&& pieces[at].len() > 0
            &&& at > 0 ==> pieces[at] != "."@
            &&& parts_in(pieces.take(at)) == parts_in(pieces).take(part)
            &&& parts_in(pieces.take(at + 1)) == parts_in(pieces).take(part + 1)
        }),
    decreases pieces.len(),
{
    let init = pieces.drop_last();
    let head = parts_in(init);
    let all = parts_in(pieces);
    let at = piece_of(pieces, part);
    if part < head.len() {
        lemma_piece_of(init, part);
        assert(pieces.take(at) =~= init.take(at));
        assert(pieces.take(at + 1) =~= init.take(at + 1));
        assert(pieces[at] == init[at]);
        assert(all.take(part) =~= head.take(part));
        assert(all.take(part + 1) =~= head.take(part + 1));
    } else {
        assert(pieces.take(at) =~= init);
        assert(pieces.take(at + 1) =~= pieces);
        assert(all.take(part) =~= head);
        assert(all.take(part + 1) =~= all);
    }
}

proof fn lemma_text_behind(path: Seq<char>, count: int)
    requires
        0 <= count < depth(path),
    ensures
        !is_absolute(text_behind(path, count)),
        text_behind(path, count).len() > 0,
        components(text_behind(path, count)) == parts_in(parts_of(path, '/')).skip(count),
{
    let pieces = parts_of(path, '/');
    let all = parts_in(pieces);
    let last = all.len() - 1;
    let from = piece_of(pieces, count);
    let to = piece_of(pieces, last) + 1;
    lemma_piece_of(pieces, count);
    lemma_piece_of(pieces, last);
    lemma_pieces_have_no_slash(path);
    if to <= from {
        assert(pieces.take(from).take(to) =~= pieces.take(to));
        lemma_fewer_pieces(pieces.take(from), to);
    }
    let chosen = pieces.subrange(from, to);
    assert(chosen[0] == pieces[from]);
    lemma_pieces_of_joined(chosen);
    lemma_first_name(chosen);
    assert(!chosen[0].contains('/'));
    assert(chosen[0][0] != '/');
    lemma_parts_concat(pieces.take(from), chosen);
    assert(pieces.take(from) + chosen =~= pieces.take(to));
    assert(all.take(last + 1) =~= all);
    assert(all.take(count) + parts_in(chosen) == all);
    assert(parts_in(chosen) =~= all.skip(count));
}

proof fn lemma_fewer_pieces(pieces: Seq<Seq<char>>, count: int)
    requires
        0 <= count <= pieces.len(),
    ensures
        parts_in(pieces.take(count)).len() <= parts_in(pieces).len(),
    decreases pieces.len(),
{
    if count < pieces.len() {
        lemma_fewer_pieces(pieces.drop_last(), count);
        assert(pieces.drop_last().take(count) =~= pieces.take(count));
    } else {
        assert(pieces.take(count) =~= pieces);
    }
}

/// A path that leads down only is not absolute, and stays below whatever it is put
/// below: its parts stand behind the directory's.
pub proof fn law_leading_down_stays_below(base: Seq<char>, path: Seq<char>)
    requires
        leads_down(path),
    ensures
        !is_absolute(path),
        components(joined_path(base, path)) == components(base) + components(path),
{
    reveal_strlit("/");
    if is_absolute(path) {
        assert(components(path)[0] is Root);
    }
    let pieces = parts_of(path, '/');
    lemma_parts_nonempty(path, '/');
    if pieces[0] == "."@ {
        lemma_leading_dot(pieces);
        assert(components(path)[0] is Current);
    }
    let whole = joined_path(base, path);
    if base.len() == 0 {
        assert(base + path =~= path);
        assert(parts_of(base, '/') =~= seq![Seq::<char>::empty()]);
        reveal_with_fuel(parts_in, 2);
        assert(components(base) =~= Seq::<Part<Seq<char>>>::empty());
        assert(components(base) + components(path) =~= components(path));
    } else if base.last() == '/' {
        let dir = base.drop_last();
        assert(dir.push('/') =~= base);
        lemma_pieces_concat(dir, path);
        lemma_parts_nonempty(dir, '/');
        lemma_parts_concat(parts_of(dir, '/'), pieces);
        assert(parts_of(base, '/') == parts_of(dir, '/').push(Seq::empty()));
        assert(parts_of(dir, '/').push(Seq::empty()).drop_last() =~= parts_of(dir, '/'));
        assert(parts_in(parts_of(base, '/')) == parts_in(parts_of(dir, '/')));
        assert(whole[0] == base[0]);
        assert(components(whole) =~= components(base) + components(path));
    } else {
        assert(base + "/"@ + path =~= base.push('/') + path);
        lemma_pieces_concat(base, path);
        lemma_parts_concat(parts_of(base, '/'), pieces);
        assert(whole[0] == base[0]);
        assert(components(whole) =~= components(base) + components(path));
    }
}

proof fn lemma_leading_dot(pieces: Seq<Seq<char>>)
    requires
        pieces.len() > 0,
        pieces[0] == "."@,
    ensures
        parts_in(pieces).len() > 0,
        parts_in(pieces)[0] is Current,
    decreases pieces.len(),
{
    reveal_strlit(".");
    if pieces.len() > 1 {
        lemma_leading_dot(pieces.drop_last());
    } else {
        let none = Seq::<Part<Seq<char>>>::empty();
        assert(parts_in(pieces.drop_last()) =~= none);
        assert(parts_in(pieces) == none.push(Part::Current));
    }
}

/// What is left of a path behind a directory, where it leads down, is the path
/// again once it is put back below the directory.
pub proof fn law_stripped_is_put_back(path: Seq<char>, base: Seq<char>)
    requires
        components(base).is_prefix_of(components(path)),
        components(base).len() < components(path).len(),
        forall|i: int|
            components(base).len() <= i < components(path).len() ==> (
            #[trigger] components(path)[i]) is Name,
    ensures
        stripped(path, base) matches Some(rest) && {
            &&& leads_down(rest)
            &&& components(joined_path(base, rest)) == components(path)
        },
{
    let prefix = components(base);
    let all = components(path);
    let parts = parts_in(parts_of(path, '/'));
    let rest = stripped(path, base)->0;
    if prefix.len() > 0 {
        assert(prefix[0] == all[0]);
    }
    let count = if is_absolute(path) {
        prefix.len() - 1
    } else {
        prefix.len() as int
    };
    if is_absolute(path) {
        assert(all[0] is Root);
    }
    lemma_text_behind(path, count);
    if prefix.len() == 0 {
        lemma_first_piece(path);
        assert(rest == text_behind(path, 0));
    }
    assert(components(rest) == parts.skip(count));
    assert(parts.skip(count) =~= all.skip(prefix.len() as int));
    assert forall|i: int| 0 <= i < components(rest).len() implies #[trigger] components(rest)[i] is Name by {
        assert(components(rest)[i] == all[i + prefix.len()]);
    }
    law_leading_down_stays_below(base, rest);
    assert(prefix + all.skip(prefix.len() as int) =~= all);
}

/// A path that begins with a name is written from there.
proof fn lemma_first_piece(path: Seq<char>)
    requires
        !is_absolute(path),
        depth(path) > 0,
    ensures
        text_down_to(path, depth(path) as int) == text_behind(path, 0),
{
    let pieces = parts_of(path, '/');
    let at = piece_of(pieces, 0);
    let last = piece_of(pieces, depth(path) - 1);
    lemma_piece_of(pieces, 0);
    lemma_piece_of(pieces, depth(path) - 1);
    lemma_parts_nonempty(path, '/');
    if at > 0 {
        lemma_first_is_written(path);
        lemma_first_counts(pieces, at);
    }
    assert(pieces.take(last + 1) =~= pieces.subrange(0, last + 1));
}

proof fn lemma_first_is_written(path: Seq<char>)
    requires
        !is_absolute(path),
        path.len() > 0,
    ensures
        parts_of(path, '/')[0].len() > 0,
    decreases path.len(),
{
    lemma_parts_nonempty(path, '/');
    let init = path.drop_last();
    lemma_parts_nonempty(init, '/');
    if init.len() > 0 {
        assert(init[0] == path[0]);
        lemma_first_is_written(init);
    } else {
        assert(path.last() == path[0]);
    }
}

proof fn lemma_first_counts(pieces: Seq<Seq<char>>, count: int)
    requires
        pieces.len() > 0,
        pieces[0].len() > 0,
        0 < count <= pieces.len(),
    ensures
        parts_in(pieces.take(count)).len() > 0,
    decreases count,
{
    if count > 1 {
        lemma_first_counts(pieces, count - 1);
        assert(pieces.take(count).drop_last() =~= pieces.take(count - 1));
    } else {
        assert(pieces.take(1).last() == pieces[0]);
    }
}

proof fn lemma_joined_prefix(pieces: Seq<Seq<char>>, count: int, sep: Seq<char>)
    requires
        0 <= count <= pieces.len(),
    ensures
        joined(pieces.take(count), sep).is_prefix_of(joined(pieces, sep)),
    decreases pieces.len(),
{
    if count < pieces.len() {
        let init = pieces.drop_last();
        lemma_joined_prefix(init, count, sep);
        assert(init.take(count) =~= pieces.take(count));
        if pieces.len() == 1 {
            assert(joined(pieces.take(count), sep) =~= Seq::<char>::empty());
        } else {
            assert(joined(init, sep).is_prefix_of(joined(pieces, sep)));
        }
    } else {
        assert(pieces.take(count) =~= pieces);
    }
}

/// A path down to one of its parts has the parts that far, from the root where the
/// path is absolute.
pub proof fn law_path_down_to_a_part(path: Seq<char>, count: int)
    requires
        0 <= count <= depth(path),
    ensures
        is_absolute(text_down_to(path, count)) == is_absolute(path),
        components(text_down_to(path, count)) == components(path).take(
            if is_absolute(path) {
                count + 1
            } else {
                count
            },
        ),
{
    reveal_strlit("/");
    let pieces = parts_of(path, '/');
    let all = parts_in(pieces);
    let text = text_down_to(path, count);
    if count == 0 {
        if is_absolute(path) {
            assert("/"@ =~= Seq::<char>::empty().push('/') + Seq::<char>::empty());
            lemma_pieces_concat(Seq::empty(), Seq::empty());
            assert(parts_of(Seq::<char>::empty(), '/') =~= seq![Seq::<char>::empty()]);
            reveal_with_fuel(parts_in, 3);
            assert(parts_in(parts_of(text, '/')) =~= Seq::<Part<Seq<char>>>::empty());
        } else {
            assert(parts_of(text, '/') =~= seq![Seq::<char>::empty()]);
            reveal_with_fuel(parts_in, 2);
            assert(parts_in(parts_of(text, '/')) =~= Seq::<Part<Seq<char>>>::empty());
        }
        assert(components(text) =~= components(path).take(
            if is_absolute(path) {
                count + 1
            } else {
                count
            },
        ));
    } else {
        let at = piece_of(pieces, count - 1);
        lemma_piece_of(pieces, count - 1);
        lemma_pieces_have_no_slash(path);
        lemma_parts_nonempty(path, '/');
        let chosen = pieces.take(at + 1);
        assert forall|i: int| 0 <= i < chosen.len() implies !(#[trigger] chosen[i]).contains('/') by {
            assert(chosen[i] == pieces[i]);
        }
        lemma_pieces_of_joined(chosen);
        assert("/"@ =~= seq!['/']);
        law_split_is_joined_again(path, '/');
        lemma_joined_prefix(pieces, at + 1, "/"@);
        if text.len() > 0 {
            assert(text[0] == path[0]);
        } else {
            assert(text =~= Seq::<char>::empty());
            assert(parts_of(text, '/') =~= seq![Seq::<char>::empty()]);
            assert(chosen[at] == pieces[at]);
        }
        assert(components(text) =~= components(path).take(
            if is_absolute(path) {
                count + 1
            } else {
                count
            },
        ));
    }
}

/// Beside a path stands what has its parts but for the last, which is the new name.
pub proof fn law_beside_changes_the_name(path: Seq<char>, name: Seq<char>)
    requires
        name_in(components(path)) is Some,
        components(name) == seq![Part::Name(name)],
        name.len() > 0,
    ensures
        components(beside(path, name)) == components(path).drop_last().push(Part::Name(name)),
        name_in(components(beside(path, name))) == Some(name),
        same_dir(path, beside(path, name)),
{
    let parts = parts_in(parts_of(path, '/'));
    if parts.len() == 0 {
        assert(components(path).last() is Root);
    }
    law_path_down_to_a_part(path, depth(path) - 1);
    law_leading_down_stays_below(text_down_to(path, depth(path) - 1), name);
    assert(components(text_down_to(path, depth(path) - 1)) =~= components(path).drop_last());
    assert(components(beside(path, name)) =~= components(path).drop_last().push(Part::Name(name)));
    assert(components(beside(path, name)).drop_last() =~= components(path).drop_last());
}

/// One more piece behind a path is one more part: its parent for two dots, and else
/// a name. A dot or nothing adds none.
pub proof fn law_one_more_piece(path: Seq<char>, piece: Seq<char>)
    requires
        path.len() > 0,
        !piece.contains('/'),
    ensures
        components(path + "/"@ + piece) == (if piece.len() == 0 || piece == "."@ {
            components(path)
        } else if piece == ".."@ {
            components(path).push(Part::Parent)
        } else {
            components(path).push(Part::Name(piece))
        }),
{
    reveal_strlit("/");
    reveal_strlit(".");
    reveal_strlit("..");
    let whole = path + "/"@ + piece;
    assert(whole =~= path.push('/') + piece);
    lemma_pieces_concat(path, piece);
    lemma_piece_alone(piece);
    lemma_parts_nonempty(path, '/');
    let pieces = parts_of(path, '/') + seq![piece];
    assert(pieces.drop_last() =~= parts_of(path, '/'));
    assert(pieces.last() == piece);
    assert(whole[0] == path[0]);
    assert("."@.len() == 1 && ".."@.len() == 2);
    assert(components(whole) =~= (if piece.len() == 0 || piece == "."@ {
        components(path)
    } else if piece == ".."@ {
        components(path).push(Part::Parent)
    } else {
        components(path).push(Part::Name(piece))
    }));
}

/// A name in a path, taken alone, is a path of that name.
pub proof fn law_names_stand_alone(path: Seq<char>, i: int)
    requires
        0 <= i < components(path).len(),
        components(path)[i] is Name,
    ensures
        components(components(path)[i]->Name_0) == seq![components(path)[i]],
        components(path)[i]->Name_0.len() > 0,
{
    let pieces = parts_of(path, '/');
    let at = if is_absolute(path) {
        i - 1
    } else {
        i
    };
    lemma_pieces_have_no_slash(path);
    lemma_named_piece(pieces, at);
    let name = components(path)[i]->Name_0;
    lemma_piece_alone(name);
    assert(!is_absolute(name)) by {
        if is_absolute(name) {
            assert(name.contains('/'));
        }
    }
    reveal_with_fuel(parts_in, 2);
    assert(seq![name].drop_last() =~= Seq::<Seq<char>>::empty());
    assert(seq![name].last() == name);
    assert(parts_in(seq![name]) =~= seq![Part::Name(name)]);
}

proof fn lemma_named_piece(pieces: Seq<Seq<char>>, at: int)
    requires
        0 <= at < parts_in(pieces).len(),
        parts_in(pieces)[at] is Name,
        forall|i: int| 0 <= i < pieces.len() ==> !(#[trigger] pieces[i]).contains('/'),
    ensures
        ({
            let name = parts_in(pieces)[at]->Name_0;
            name.len() > 0 && name != "."@ && name != ".."@ && !name.contains('/')
        }),
    decreases pieces.len(),
{
    let init = pieces.drop_last();
    let head = parts_in(init);
    assert(!pieces[pieces.len() - 1].contains('/'));
    if at < head.len() {
        assert forall|i: int| 0 <= i < init.len() implies !(#[trigger] init[i]).contains('/') by {
            assert(init[i] == pieces[i]);
        }
        assert(parts_in(pieces)[at] == head[at]);
        lemma_named_piece(init, at);
    }
}

} // verus!
