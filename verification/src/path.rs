//! Unix path syntax: how a path string splits into components, as
//! `std::path::Path::components` does on Unix, and what follows from that
//! (the file name, the name of the parent directory, equality of paths).
use vstd::prelude::*;

use crate::text::{chars_of, string_from_chars};

verus! {

/// The pieces of `s` between its `'/'` separators, empty pieces included.
/// There is always at least one piece.
pub open spec fn split_pieces(s: Seq<char>) -> Seq<Seq<char>>
    decreases s.len(),
{
    if s.len() == 0 {
        seq![Seq::empty()]
    } else {
        let prev = split_pieces(s.drop_last());
        if s.last() == '/' {
            prev.push(Seq::empty())
        } else {
            prev.update(prev.len() - 1, prev.last().push(s.last()))
        }
    }
}

/// A piece that stands as a component of its own: not empty and not `"."`.
pub open spec fn is_kept_piece(p: Seq<char>) -> bool {
    p.len() > 0 && p != seq!['.']
}

/// The pieces that stand as components, in order.
pub open spec fn kept_pieces(ps: Seq<Seq<char>>) -> Seq<Seq<char>>
    decreases ps.len(),
{
    if ps.len() == 0 {
        Seq::empty()
    } else {
        let sub = kept_pieces(ps.drop_last());
        if is_kept_piece(ps.last()) {
            sub.push(ps.last())
        } else {
            sub
        }
    }
}

/// The path starts at the root directory.
pub open spec fn has_root(s: Seq<char>) -> bool {
    s.len() > 0 && s[0] == '/'
}

/// A relative path whose first piece is `"."` keeps a leading current-directory component.
pub open spec fn has_leading_cur_dir(s: Seq<char>) -> bool {
    !has_root(s) && s.len() > 0 && s[0] == '.' && (s.len() == 1 || s[1] == '/')
}

/// The components of a path: the root directory written `"/"`, a leading
/// current directory written `"."`, then every piece that is neither empty nor `"."`
/// (`".."` stands for the parent directory).
pub open spec fn components(s: Seq<char>) -> Seq<Seq<char>> {
    (if has_root(s) { seq![seq!['/']] } else { Seq::empty() })
    + (if has_leading_cur_dir(s) { seq![seq!['.']] } else { Seq::empty() })
    + kept_pieces(split_pieces(s))
}

/// A component that names an entry: not the root, `"."` or `".."`.
pub open spec fn is_normal(c: Seq<char>) -> bool {
    c != seq!['/'] && c != seq!['.'] && c != seq!['.', '.']
}

/// The last component of a component list, if it names an entry.
pub open spec fn last_name(cs: Seq<Seq<char>>) -> Option<Seq<char>> {
    if cs.len() > 0 && is_normal(cs.last()) {
        Some(cs.last())
    } else {
        None
    }
}

/// `Path::file_name`: the last component, if it names an entry.
pub open spec fn file_name_spec(s: Seq<char>) -> Option<Seq<char>> {
    last_name(components(s))
}

/// `Path::parent` followed by `Path::file_name`: the component before the last,
/// if it names an entry and the last component is not the root.
pub open spec fn parent_name_spec(s: Seq<char>) -> Option<Seq<char>> {
    let cs = components(s);
    if cs.len() > 0 && cs.last() != seq!['/'] {
        last_name(cs.drop_last())
    } else {
        None
    }
}

/// The character sequences held by a list of character vectors.
pub open spec fn views(v: Seq<Vec<char>>) -> Seq<Seq<char>> {
    Seq::new(v.len(), |i: int| v[i]@)
}

/// Two paths are equal when their components are (`PartialEq` for `Path`).
pub open spec fn same_path_spec(a: Seq<char>, b: Seq<char>) -> bool {
    components(a) == components(b)
}

/// There is always at least one piece.
proof fn lemma_split_pieces_nonempty(s: Seq<char>)
    ensures
        split_pieces(s).len() >= 1,
    decreases s.len(),
{
    if s.len() > 0 {
        lemma_split_pieces_nonempty(s.drop_last());
    }
}

/// A path whose last character is neither `'/'` nor `'.'` has a file name,
/// made of the characters after its last `'/'`.
proof fn lemma_last_piece(s: Seq<char>)
    requires
        s.len() > 0,
        s.last() != '/',
    ensures
        split_pieces(s).last().len() > 0,
        split_pieces(s).last().last() == s.last(),
{
    lemma_split_pieces_nonempty(s.drop_last());
}

/// A path that ends with a character other than `'/'` and `'.'` has a file name.
pub proof fn lemma_file_name_exists(s: Seq<char>)
    requires
        s.len() > 0,
        s.last() != '/',
        s.last() != '.',
    ensures
        file_name_spec(s) is Some,
{
    lemma_last_piece(s);
    lemma_split_pieces_nonempty(s);
    let ps = split_pieces(s);
    let p = ps.last();
    assert(p != seq!['.']) by {
        if p == seq!['.'] {
            assert(p.last() == '.');
        }
    }
    assert(p != seq!['/']) by {
        if p == seq!['/'] {
            assert(p.last() == '/');
        }
    }
    assert(p != seq!['.', '.']) by {
        if p == seq!['.', '.'] {
            assert(p.last() == '.');
        }
    }
    assert(kept_pieces(ps).last() == p);
    assert(components(s).last() == p);
}

/// Whether two character sequences are equal.
pub fn chars_eq(a: &[char], b: &[char]) -> (r: bool)
    ensures
        r == (a@ == b@),
{
    if a.len() != b.len() {
        return false;
    }
    let mut i: usize = 0;
    while i < a.len()
        invariant
            a@.len() == b@.len(),
            i <= a@.len(),
            forall|j: int| 0 <= j < i ==> a@[j] == b@[j],
        decreases a@.len() - i,
    {
        if a[i] != b[i] {
            return false;
        }
        i = i + 1;
    }
    assert(a@ =~= b@);
    true
}

fn is_kept(p: &Vec<char>) -> (r: bool)
    ensures
        r == is_kept_piece(p@),
{
    if p.len() == 0 {
        return false;
    }
    if p.len() == 1 && p[0] == '.' {
        assert(p@ =~= seq!['.']);
        return false;
    }
    assert(p@ != seq!['.']) by {
        if p@ == seq!['.'] {
            assert(p@.len() == 1 && p@[0] == '.');
        }
    }
    true
}

/// The components of a path given by its characters.
pub fn path_components(s: &[char]) -> (r: Vec<Vec<char>>)
    ensures
        views(r@) == components(s@),
{
    let n = s.len();
    let mut done: Vec<Vec<char>> = Vec::new();
    let mut cur: Vec<char> = Vec::new();
    let mut i: usize = 0;
    proof {
        assert(s@.take(0) =~= Seq::<char>::empty());
        assert(views(done@) =~= Seq::<Seq<char>>::empty());
    }
    while i < n
        invariant
            n == s@.len(),
            i <= n,
            split_pieces(s@.take(i as int)).len() >= 1,
            views(done@) == kept_pieces(split_pieces(s@.take(i as int)).drop_last()),
            cur@ == split_pieces(s@.take(i as int)).last(),
        decreases n - i,
    {
        let c = s[i];
        let ghost prev = split_pieces(s@.take(i as int));
        assert(s@.take(i + 1).drop_last() =~= s@.take(i as int));
        assert(s@.take(i + 1).last() == c);
        if c == '/' {
            let ghost np = prev.push(Seq::empty());
            assert(split_pieces(s@.take(i + 1)) == np);
            assert(np.drop_last() =~= prev);
            let keep = is_kept(&cur);
            let piece = cur;
            cur = Vec::new();
            let ghost before = views(done@);
            if keep {
                done.push(piece);
                assert(views(done@) =~= before.push(piece@));
            }
            proof {
                assert(cur@ =~= Seq::<char>::empty());
                assert(np.last() =~= Seq::<char>::empty());
                assert(views(done@) == kept_pieces(np.drop_last()));
            }
        } else {
            let ghost np = prev.update(prev.len() - 1, prev.last().push(c));
            assert(split_pieces(s@.take(i + 1)) == np);
            assert(np.drop_last() =~= prev.drop_last());
            cur.push(c);
        }
        i = i + 1;
    }
    assert(s@.take(n as int) =~= s@);
    let ghost ps = split_pieces(s@);
    let ghost before = views(done@);
    if is_kept(&cur) {
        let ghost c = cur@;
        done.push(cur);
        assert(views(done@) =~= before.push(c));
    }
    assert(views(done@) == kept_pieces(ps));
    let mut r: Vec<Vec<char>> = Vec::new();
    let root = n > 0 && s[0] == '/';
    let cur_dir = !root && n > 0 && s[0] == '.' && (n == 1 || s[1] == '/');
    if root {
        let v = vec!['/'];
        assert(v@ =~= seq!['/']);
        r.push(v);
    }
    if cur_dir {
        let v = vec!['.'];
        assert(v@ =~= seq!['.']);
        r.push(v);
    }
    assert(views(r@) =~= (if has_root(s@) { seq![seq!['/']] } else { Seq::empty() })
        + (if has_leading_cur_dir(s@) { seq![seq!['.']] } else { Seq::empty() }));
    let ghost head = views(r@);
    let ghost rest = views(done@);
    r.append(&mut done);
    assert(views(r@) =~= head + rest);
    r
}

fn name_of_last(cs: &Vec<Vec<char>>, upto: usize) -> (r: Option<String>)
    requires
        upto <= cs@.len(),
    ensures
        r matches Some(x) ==> last_name(views(cs@).take(upto as int)) == Some(x@),
        r is None ==> last_name(views(cs@).take(upto as int)) is None,
{
    if upto == 0 {
        return None;
    }
    let last = &cs[upto - 1];
    let ghost l = last@;
    assert(views(cs@).take(upto as int).last() == l);
    let is_root = last.len() == 1 && last[0] == '/';
    let is_cur = last.len() == 1 && last[0] == '.';
    let is_par = last.len() == 2 && last[0] == '.' && last[1] == '.';
    assert(is_root == (l == seq!['/'])) by {
        if l == seq!['/'] { assert(l.len() == 1 && l[0] == '/'); }
        if is_root { assert(l =~= seq!['/']); }
    }
    assert(is_cur == (l == seq!['.'])) by {
        if l == seq!['.'] { assert(l.len() == 1 && l[0] == '.'); }
        if is_cur { assert(l =~= seq!['.']); }
    }
    assert(is_par == (l == seq!['.', '.'])) by {
        if l == seq!['.', '.'] { assert(l.len() == 2 && l[0] == '.' && l[1] == '.'); }
        if is_par { assert(l =~= seq!['.', '.']); }
    }
    if is_root || is_cur || is_par {
        None
    } else {
        Some(string_from_chars(last.as_slice()))
    }
}

/// `Path::file_name`: the last component of `path`, if it names an entry.
pub fn file_name(path: &str) -> (r: Option<String>)
    ensures
        r matches Some(x) ==> file_name_spec(path@) == Some(x@),
        r is None ==> file_name_spec(path@) is None,
{
    let cs = chars_of(path);
    let comps = path_components(cs.as_slice());
    assert(views(comps@).take(comps@.len() as int) =~= views(comps@));
    name_of_last(&comps, comps.len())
}

/// The name of the directory that holds `path` (`path.parent()` then `file_name()`).
pub fn parent_name(path: &str) -> (r: Option<String>)
    ensures
        r matches Some(x) ==> parent_name_spec(path@) == Some(x@),
        r is None ==> parent_name_spec(path@) is None,
{
    let cs = chars_of(path);
    let comps = path_components(cs.as_slice());
    let n = comps.len();
    if n == 0 {
        return None;
    }
    let last = &comps[n - 1];
    assert(views(comps@).last() == last@);
    if last.len() == 1 && last[0] == '/' {
        assert(last@ =~= seq!['/']);
        return None;
    }
    assert(last@ != seq!['/']) by {
        if last@ == seq!['/'] { assert(last@.len() == 1 && last@[0] == '/'); }
    }
    assert(views(comps@).take(n - 1) =~= views(comps@).drop_last());
    name_of_last(&comps, n - 1)
}

/// Whether two paths are equal, component by component (`==` on `Path`).
pub fn same_path(a: &str, b: &str) -> (r: bool)
    ensures
        r == same_path_spec(a@, b@),
{
    let ca = chars_of(a);
    let cb = chars_of(b);
    let pa = path_components(ca.as_slice());
    let pb = path_components(cb.as_slice());
    if pa.len() != pb.len() {
        return false;
    }
    let mut i: usize = 0;
    while i < pa.len()
        invariant
            pa@.len() == pb@.len(),
            views(pa@) == components(a@),
            views(pb@) == components(b@),
            i <= pa@.len(),
            forall|j: int| 0 <= j < i ==> views(pa@)[j] == views(pb@)[j],
        decreases pa@.len() - i,
    {
        if !chars_eq(pa[i].as_slice(), pb[i].as_slice()) {
            assert(views(pa@)[i as int] != views(pb@)[i as int]);
            assert(views(pa@) != views(pb@));
            return false;
        }
        i = i + 1;
    }
    assert(views(pa@) =~= views(pb@));
    true
}

/// Path equality is an equivalence: reflexive, symmetric and transitive.
pub proof fn law_same_path_equivalence(a: Seq<char>, b: Seq<char>, c: Seq<char>)
    ensures
        same_path_spec(a, a),
        same_path_spec(a, b) ==> same_path_spec(b, a),
        same_path_spec(a, b) && same_path_spec(b, c) ==> same_path_spec(a, c),
{
}

/// A separator added at the end of a non-empty path leaves it the same path
/// (`a/b/` and `a/b` have the same components).
pub proof fn law_trailing_separator(s: Seq<char>)
    requires
        s.len() > 0,
    ensures
        same_path_spec(s.push('/'), s),
{
    let t = s.push('/');
    assert(t.drop_last() =~= s);
    lemma_split_pieces_nonempty(s);
    let ps = split_pieces(s).push(Seq::empty());
    assert(split_pieces(t) == ps);
    assert(ps.drop_last() =~= split_pieces(s));
    assert(kept_pieces(ps) == kept_pieces(split_pieces(s)));
    assert(has_root(t) == has_root(s));
    assert(has_leading_cur_dir(t) == has_leading_cur_dir(s));
}

/// `child` lies strictly below `parent`: the components of `parent` are a proper
/// prefix of those of `child` (`Path::starts_with`, and not the same path).
pub open spec fn is_below(child: Seq<char>, parent: Seq<char>) -> bool {
    let c = components(child);
    let p = components(parent);
    p.len() < c.len() && c.take(p.len() as int) == p
}

/// A path below another is not the same path.
pub proof fn lemma_below_not_same(child: Seq<char>, parent: Seq<char>)
    requires
        is_below(child, parent),
    ensures
        !same_path_spec(child, parent),
{
}

/// Lying below is transitive.
pub proof fn lemma_below_transitive(a: Seq<char>, b: Seq<char>, c: Seq<char>)
    requires
        is_below(a, b),
        is_below(b, c),
    ensures
        is_below(a, c),
{
    let ca = components(a);
    let cb = components(b);
    let cc = components(c);
    assert(ca.take(cc.len() as int) =~= ca.take(cb.len() as int).take(cc.len() as int));
}

} // verus!
