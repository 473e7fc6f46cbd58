//! Whether two entries hold the same: a file, or a directory with all that is in
//! it.

use crate::text::str_eq;
use vstd::prelude::*;
use vstd::string::*;

verus! {

/// What lies at a path. A file is known by its size and its digest; the names in a
/// directory are in order.
#[derive(Debug)]
pub enum Tree {
    Link,
    File { len: u64, digest: Vec<u8> },
    Dir(Vec<(String, Tree)>),
    Other,
}

pub open spec fn names(children: Seq<(String, Tree)>) -> Seq<Seq<char>> {
    children.map_values(|child: (String, Tree)| child.0@)
}

/// Whether two trees hold the same: none where a link is met on the way.
pub open spec fn same_tree(a: Tree, b: Tree) -> Option<bool>
    decreases a,
{
    if a is Link || b is Link {
        None
    } else {
        match (a, b) {
            (
                Tree::File { len: x, digest: p },
                Tree::File { len: y, digest: q },
            ) => Some(x == y && p@ == q@),
            (Tree::Dir(x), Tree::Dir(y)) => if names(x@) != names(y@) {
                Some(false)
            } else {
                same_children(x@, y@)
            },
            _ => Some(false),
        }
    }
}

/// The same of the children of two directories, one by one: the first that
/// differs decides.
pub open spec fn same_children(a: Seq<(String, Tree)>, b: Seq<(String, Tree)>) -> Option<bool>
    decreases a,
{
    if a.len() == 0 || b.len() == 0 {
        Some(true)
    } else {
        match same_children(a.drop_last(), b.drop_last()) {
            Some(true) => same_tree(a.last().1, b.last().1),
            other => other,
        }
    }
}

proof fn lemma_child_decreases(tree: Tree, i: int)
    requires
        tree is Dir,
        0 <= i < tree->Dir_0@.len(),
    ensures
        decreases_to!(tree => tree->Dir_0@[i].1),
{
    assert(decreases_to!(tree => tree->Dir_0));
    assert(decreases_to!(tree->Dir_0 => tree->Dir_0@));
    assert(decreases_to!(tree->Dir_0@ => tree->Dir_0@[i]));
    assert(decreases_to!(tree->Dir_0@[i] => tree->Dir_0@[i].1));
}

proof fn lemma_verdict_stays(a: Seq<(String, Tree)>, b: Seq<(String, Tree)>, n: int)
    requires
        0 <= n <= a.len(),
        a.len() == b.len(),
        same_children(a.take(n), b.take(n)) != Some(true),
    ensures
        same_children(a, b) == same_children(a.take(n), b.take(n)),
    decreases a.len() - n,
{
    if n < a.len() {
        assert(a.take(n + 1).drop_last() =~= a.take(n));
        assert(b.take(n + 1).drop_last() =~= b.take(n));
        lemma_verdict_stays(a, b, n + 1);
    } else {
        assert(a.take(n) =~= a);
        assert(b.take(n) =~= b);
    }
}

fn same_bytes(a: &Vec<u8>, b: &Vec<u8>) -> (r: bool)
    ensures
        r == (a@ == b@),
{
    if a.len() != b.len() {
        return false;
    }
    let mut i: usize = 0;
    while i < a.len()
        invariant
            i <= a@.len() == b@.len(),
            forall|k: int| 0 <= k < i ==> #[trigger] a@[k] == b@[k],
        decreases a@.len() - i,
    {
        if a[i] != b[i] {
            return false;
        }
        i = i + 1;
    }
    assert(a@ =~= b@);
    true
}

fn same_names(a: &Vec<(String, Tree)>, b: &Vec<(String, Tree)>) -> (r: bool)
    ensures
        r == (names(a@) == names(b@)),
{
    let ghost x = names(a@);
    let ghost y = names(b@);
    if a.len() != b.len() {
        assert(x.len() != y.len());
        return false;
    }
    let mut i: usize = 0;
    while i < a.len()
        invariant
            i <= a@.len() == b@.len(),
            x == names(a@),
            y == names(b@),
            forall|k: int| 0 <= k < i ==> #[trigger] x[k] == y[k],
        decreases a@.len() - i,
    {
        assert(x[i as int] == a@[i as int].0@);
        assert(y[i as int] == b@[i as int].0@);
        if !str_eq(a[i].0.as_str(), b[i].0.as_str()) {
            return false;
        }
        i = i + 1;
    }
    assert(x =~= y);
    true
}

/// Whether two trees hold the same. A link is refused wherever it is met.
pub fn equivalent(a: &Tree, b: &Tree) -> (r: Result<bool, String>)
    ensures
        match same_tree(*a, *b) {
            Some(same) => r == Ok::<bool, String>(same),
            None => r matches Err(e) && e@ == "knowledge move recovery rejects symlinks"@,
        },
    decreases a,
{
    match (a, b) {
        (Tree::Link, _) => Err("knowledge move recovery rejects symlinks".to_owned()),
        (_, Tree::Link) => Err("knowledge move recovery rejects symlinks".to_owned()),
        (Tree::File { len: x, digest: p }, Tree::File { len: y, digest: q }) => Ok(
            *x == *y && same_bytes(p, q),
        ),
        (Tree::Dir(x), Tree::Dir(y)) => {
            if !same_names(x, y) {
                return Ok(false);
            }
            assert(names(x@).len() == x@.len());
            assert(names(y@).len() == y@.len());
            let mut i: usize = 0;
            while i < x.len()
                invariant
                    i <= x@.len() == y@.len(),
                    names(x@) == names(y@),
                    *a == Tree::Dir(*x),
                    *b == Tree::Dir(*y),
                    same_children(x@.take(i as int), y@.take(i as int)) == Some(true),
                decreases x@.len() - i,
            {
                proof {
                    lemma_child_decreases(*a, i as int);
                    assert(x@.take(i + 1).drop_last() =~= x@.take(i as int));
                    assert(y@.take(i + 1).drop_last() =~= y@.take(i as int));
                }
                let verdict = equivalent(&x[i].1, &y[i].1);
                let same = match verdict {
                    Ok(same) => same,
                    Err(e) => {
                        proof {
                            lemma_verdict_stays(x@, y@, i + 1);
                        }
                        return Err(e);
                    },
                };
                if !same {
                    proof {
                        lemma_verdict_stays(x@, y@, i + 1);
                    }
                    return Ok(false);
                }
                i = i + 1;
            }
            assert(x@.take(i as int) =~= x@);
            assert(y@.take(i as int) =~= y@);
            Ok(true)
        },
        _ => Ok(false),
    }
}

pub open spec fn has_no_odds(tree: Tree) -> bool
    decreases tree,
{
    match tree {
        Tree::Link | Tree::Other => false,
        Tree::File { .. } => true,
        Tree::Dir(children) => none_has_odds(children@),
    }
}

/// Files and directories, and nothing else.
pub open spec fn none_has_odds(children: Seq<(String, Tree)>) -> bool
    decreases children,
{
    children.len() == 0 || (none_has_odds(children.drop_last()) && has_no_odds(children.last().1))
}

/// A copy of files and directories holds the same as they do.
pub proof fn law_a_copy_holds_the_same(tree: Tree)
    requires
        has_no_odds(tree),
    ensures
        same_tree(tree, tree) == Some(true),
    decreases tree,
{
    if let Tree::Dir(children) = tree {
        assert(decreases_to!(tree => tree->Dir_0));
        assert(decreases_to!(tree->Dir_0 => tree->Dir_0@));
        lemma_copies(children@);
    }
}

proof fn lemma_copies(children: Seq<(String, Tree)>)
    requires
        none_has_odds(children),
    ensures
        same_children(children, children) == Some(true),
    decreases children,
{
    if children.len() > 0 {
        lemma_copies(children.drop_last());
        law_a_copy_holds_the_same(children.last().1);
    }
}

/// Two files hold the same exactly where their lengths and digests agree; a file is
/// never the same as a directory, and what is neither is the same as nothing. Two
/// directories that hold the same have the same names in the same order, and each
/// child of one is the same as that of the other.
pub proof fn law_same_means_the_same(a: Tree, b: Tree, i: int)
    ensures
        a is Link || b is Link ==> same_tree(a, b) is None,
        a is File && b is File ==> same_tree(a, b) == Some(
            a->len == b->len && a->digest@ == b->digest@,
        ),
        a is File && (b is Dir || b is Other) ==> same_tree(a, b) == Some(false),
        a is Dir && (b is File || b is Other) ==> same_tree(a, b) == Some(false),
        a is Other && !(b is Link) ==> same_tree(a, b) == Some(false),
        a is Dir && b is Dir && same_tree(a, b) == Some(true) ==> names(a->Dir_0@) == names(
            b->Dir_0@,
        ) && (0 <= i < a->Dir_0@.len() ==> same_tree(a->Dir_0@[i].1, b->Dir_0@[i].1) == Some(true)),
{
    if a is Dir && b is Dir && same_tree(a, b) == Some(true) {
        let x = a->Dir_0@;
        let y = b->Dir_0@;
        assert(names(x).len() == names(y).len());
        if 0 <= i < x.len() {
            lemma_same_children(x, y, i);
        }
    }
}

proof fn lemma_same_children(x: Seq<(String, Tree)>, y: Seq<(String, Tree)>, i: int)
    requires
        x.len() == y.len(),
        same_children(x, y) == Some(true),
        0 <= i < x.len(),
    ensures
        same_tree(x[i].1, y[i].1) == Some(true),
    decreases x.len(),
{
    if i < x.len() - 1 {
        lemma_same_children(x.drop_last(), y.drop_last(), i);
        assert(x.drop_last()[i] == x[i]);
        assert(y.drop_last()[i] == y[i]);
    }
}

} // verus!
