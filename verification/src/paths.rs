//! Absolute paths as lists of components.
//!
//! `/Users/me/Library` is `["Users", "me", "Library"]`; the filesystem root
//! is the empty list. Working with components keeps "parent", "child" and
//! "is inside" exact, where string prefixes would confuse `/a/bc` with a child
//! of `/a/b`.
use vstd::prelude::*;
use crate::text::{split_on, chars_of, split_chars, string_of, push_str, push_char};

verus! {

/// A path as the verifier sees it.
pub type PathView = Seq<Seq<char>>;

/// Whether `p` is `root` itself or lies beneath it.
pub open spec fn is_within(p: PathView, root: PathView) -> bool {
    root.len() <= p.len() && p.take(root.len() as int) == root
}

/// Component-wise equality.
pub fn same_path(a: &Vec<String>, b: &Vec<String>) -> (r: bool)
    ensures
        r == (a.deep_view() == b.deep_view()),
{
    if a.len() != b.len() {
        assert(a.deep_view().len() != b.deep_view().len());
        return false;
    }
    let n = a.len();
    for i in 0..n
        invariant
            n == a@.len() == b@.len(),
            forall|j: int| 0 <= j < i ==> a@[j]@ == b@[j]@,
    {
        if a[i] != b[i] {
            assert(a.deep_view()[i as int] != b.deep_view()[i as int]);
            return false;
        }
    }
    assert(a.deep_view() =~= b.deep_view());
    true
}

/// Whether `p` is one of `list`.
pub fn path_in(list: &Vec<Vec<String>>, p: &Vec<String>) -> (r: bool)
    ensures
        r == list.deep_view().contains(p.deep_view()),
{
    let n = list.len();
    for i in 0..n
        invariant
            n == list@.len(),
            forall|j: int| 0 <= j < i ==> list.deep_view()[j] != p.deep_view(),
    {
        if same_path(&list[i], p) {
            assert(list.deep_view()[i as int] == p.deep_view());
            return true;
        }
    }
    assert(!list.deep_view().contains(p.deep_view()));
    false
}

/// A copy of `p`.
pub fn clone_path(p: &Vec<String>) -> (r: Vec<String>)
    ensures
        r.deep_view() == p.deep_view(),
{
    let mut r: Vec<String> = Vec::new();
    let n = p.len();
    for i in 0..n
        invariant
            n == p@.len(),
            r.deep_view() == p.deep_view().take(i as int),
    {
        let c = p[i].clone();
        let ghost before = r.deep_view();
        r.push(c);
        assert(r.deep_view() =~= before.push(p@[i as int]@));
        assert(p.deep_view().take(i + 1) =~= p.deep_view().take(i as int).push(p@[i as int]@));
    }
    assert(p.deep_view().take(n as int) == p.deep_view());
    r
}

/// A copy of a list of paths.
pub fn clone_paths(list: &Vec<Vec<String>>) -> (r: Vec<Vec<String>>)
    ensures
        r.deep_view() == list.deep_view(),
{
    let mut r: Vec<Vec<String>> = Vec::new();
    let n = list.len();
    for i in 0..n
        invariant
            n == list@.len(),
            r.deep_view() == list.deep_view().take(i as int),
    {
        let ghost before = r.deep_view();
        r.push(clone_path(&list[i]));
        assert(r.deep_view() =~= before.push(list@[i as int].deep_view()));
        assert(list.deep_view().take(i + 1) =~= list.deep_view().take(i as int).push(
            list@[i as int].deep_view(),
        ));
    }
    assert(list.deep_view().take(n as int) == list.deep_view());
    r
}

/// `p` with one more component.
pub fn child_path(p: &Vec<String>, name: &String) -> (r: Vec<String>)
    ensures
        r.deep_view() == p.deep_view().push(name@),
{
    let mut r = clone_path(p);
    r.push(name.clone());
    assert(r.deep_view() =~= p.deep_view().push(name@));
    r
}

/// `p` without its last component (`Path::parent`), or `None` for the root.
pub fn parent_path(p: &Vec<String>) -> (r: Option<Vec<String>>)
    ensures
        p@.len() == 0 ==> r is None,
        p@.len() > 0 ==> r is Some && r->0.deep_view() == p.deep_view().drop_last(),
{
    if p.len() == 0 {
        return None;
    }
    let mut r: Vec<String> = Vec::new();
    let n = p.len() - 1;
    for i in 0..n
        invariant
            n + 1 == p@.len(),
            r.deep_view() == p.deep_view().take(i as int),
    {
        let ghost before = r.deep_view();
        r.push(p[i].clone());
        assert(r.deep_view() =~= before.push(p@[i as int]@));
        assert(p.deep_view().take(i + 1) =~= p.deep_view().take(i as int).push(p@[i as int]@));
    }
    assert(p.deep_view().take(n as int) == p.deep_view().drop_last());
    Some(r)
}

/// Collect distinct paths: add `p` to `list` unless it is there already.
pub fn insert_path(list: &mut Vec<Vec<String>>, p: Vec<String>)
    ensures
        old(list).deep_view().contains(p.deep_view()) ==> final(list).deep_view() == old(
            list,
        ).deep_view(),
        !old(list).deep_view().contains(p.deep_view()) ==> final(list).deep_view() == old(
            list,
        ).deep_view().push(p.deep_view()),
{
    if !path_in(list, &p) {
        let ghost before = list.deep_view();
        let ghost pv = p.deep_view();
        list.push(p);
        assert(list.deep_view() =~= before.push(pv));
    }
}

/// Whether a piece between slashes is a component: `Path::components` drops
/// empty pieces (repeated or trailing slashes) and `.`.
pub open spec fn is_component(piece: Seq<char>) -> bool {
    piece.len() > 0 && piece != seq!['.']
}

/// The pieces that are components, in order.
pub open spec fn keep_components(pieces: Seq<Seq<char>>) -> Seq<Seq<char>>
    decreases pieces.len(),
{
    if pieces.len() == 0 {
        Seq::empty()
    } else if is_component(pieces.last()) {
        keep_components(pieces.drop_last()).push(pieces.last())
    } else {
        keep_components(pieces.drop_last())
    }
}

/// The components of an absolute path written with `/`.
pub open spec fn components(s: Seq<char>) -> PathView {
    keep_components(split_on(s, '/'))
}

/// Whether a path written with `/` has a `..` component.
pub open spec fn climbs(s: Seq<char>) -> bool {
    split_on(s, '/').contains(seq!['.', '.'])
}

/// The components of `s` (`Path::components` on an absolute path).
pub fn path_components(s: &str) -> (r: Vec<String>)
    ensures
        r.deep_view() == components(s@),
{
    let cs = chars_of(s);
    let pieces = split_chars(cs.as_slice(), '/');
    let mut r: Vec<String> = Vec::new();
    let n = pieces.len();
    for i in 0..n
        invariant
            n == pieces@.len(),
            pieces.deep_view() == split_on(s@, '/'),
            r.deep_view() == keep_components(pieces.deep_view().take(i as int)),
    {
        let ghost pre = pieces.deep_view().take(i as int);
        assert(pieces.deep_view().take(i + 1).drop_last() == pre);
        assert(pieces.deep_view().take(i + 1).last() == pieces@[i as int]@);
        let piece = &pieces[i];
        let dot = piece.len() == 1 && piece[0] == '.';
        assert(dot == (piece@ == seq!['.'])) by {
            if piece@ == seq!['.'] {
                assert(piece@.len() == 1 && piece@[0] == '.');
            }
            if dot {
                assert(piece@ =~= seq!['.']);
            }
        }
        if piece.len() > 0 && !dot {
            let ghost before = r.deep_view();
            r.push(string_of(piece.as_slice()));
            assert(r.deep_view() =~= before.push(piece@));
        }
    }
    assert(pieces.deep_view().take(n as int) == pieces.deep_view());
    r
}

/// Whether `s` has a `..` component.
pub fn has_parent_dir(s: &str) -> (r: bool)
    ensures
        r == climbs(s@),
{
    let cs = chars_of(s);
    let pieces = split_chars(cs.as_slice(), '/');
    let n = pieces.len();
    for i in 0..n
        invariant
            n == pieces@.len(),
            pieces.deep_view() == split_on(s@, '/'),
            forall|j: int| 0 <= j < i ==> pieces.deep_view()[j] != seq!['.', '.'],
    {
        let piece = &pieces[i];
        if piece.len() == 2 && piece[0] == '.' && piece[1] == '.' {
            assert(pieces.deep_view()[i as int] =~= seq!['.', '.']);
            return true;
        }
        assert(pieces.deep_view()[i as int] != seq!['.', '.']) by {
            if pieces.deep_view()[i as int] == seq!['.', '.'] {
                assert(piece@ == seq!['.', '.']);
                assert(piece@.len() == 2 && piece@[0] == '.' && piece@[1] == '.');
            }
        }
    }
    false
}

/// Whether `p` is `root` itself or lies beneath it, component by component.
pub fn path_within(p: &Vec<String>, root: &Vec<String>) -> (r: bool)
    ensures
        r == is_within(p.deep_view(), root.deep_view()),
{
    if root.len() > p.len() {
        return false;
    }
    let n = root.len();
    for i in 0..n
        invariant
            n == root@.len() <= p@.len(),
            forall|j: int| 0 <= j < i ==> p@[j]@ == root@[j]@,
    {
        if p[i] != root[i] {
            assert(p.deep_view().take(n as int)[i as int] != root.deep_view()[i as int]);
            return false;
        }
    }
    assert(p.deep_view().take(n as int) =~= root.deep_view());
    true
}

/// `base` joined with a relative path, as `PathBuf::push` does: a separator
/// goes between them unless `base` is empty or already ends in one.
pub open spec fn join_spec(base: Seq<char>, rel: Seq<char>) -> Seq<char> {
    if base.len() == 0 || base.last() == '/' {
        base + rel
    } else {
        base + seq!['/'] + rel
    }
}

pub fn join_path(base: &str, rel: &str) -> (r: String)
    ensures
        r@ == join_spec(base@, rel@),
{
    let cs = chars_of(base);
    let mut r = String::new();
    push_str(&mut r, base);
    if cs.len() > 0 && cs[cs.len() - 1] != '/' {
        push_char(&mut r, '/');
    }
    push_str(&mut r, rel);
    r
}

/// An absolute path written out: `/` for the root, else `/` before each
/// component.
pub open spec fn path_text(p: PathView) -> Seq<char>
    decreases p.len(),
{
    if p.len() == 0 {
        seq!['/']
    } else if p.len() == 1 {
        seq!['/'] + p[0]
    } else {
        path_text(p.drop_last()) + seq!['/'] + p.last()
    }
}

/// The text of an absolute path given as components.
pub fn path_string(p: &Vec<String>) -> (r: String)
    ensures
        r@ == path_text(p.deep_view()),
{
    let mut r = String::new();
    let n = p.len();
    if n == 0 {
        push_char(&mut r, '/');
        return r;
    }
    for i in 0..n
        invariant
            n == p@.len(),
            n > 0,
            i == 0 ==> r@ == Seq::<char>::empty(),
            i > 0 ==> r@ == path_text(p.deep_view().take(i as int)),
    {
        let ghost pre = p.deep_view().take(i as int);
        assert(p.deep_view().take(i + 1).drop_last() =~= pre);
        assert(p.deep_view().take(i + 1).last() == p@[i as int]@);
        push_char(&mut r, '/');
        push_str(&mut r, p[i].as_str());
        proof {
            if i == 0 {
                assert(r@ =~= seq!['/'] + p@[0]@);
                assert(p.deep_view().take(1)[0] == p@[0]@);
            }
        }
    }
    assert(p.deep_view().take(n as int) =~= p.deep_view());
    r
}

} // verus!
