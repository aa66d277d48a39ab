//! Unix paths compared the way `std::path::Path` compares them: by
//! components, so `/mnt/`, `/mnt` and `/./mnt` are one path.

use vstd::prelude::*;

use crate::text::{chars_eq, chars_of, slice, split_char, split_on, views};

verus! {

/// A piece between slashes that names something: not empty, not `.`.
pub open spec fn is_named_part(p: Seq<char>) -> bool {
    p.len() > 0 && p != seq!['.']
}

/// The named pieces of a split path, in order.
pub open spec fn named_parts(ps: Seq<Seq<char>>) -> Seq<Seq<char>>
    decreases ps.len(),
{
    if ps.len() == 0 {
        seq![]
    } else if is_named_part(ps.last()) {
        named_parts(ps.drop_last()).push(ps.last())
    } else {
        named_parts(ps.drop_last())
    }
}

/// Whether a path starts at the root.
pub open spec fn is_absolute(s: Seq<char>) -> bool {
    s.len() > 0 && s[0] == '/'
}

/// Whether a relative path starts with a `.` piece of its own.
pub open spec fn leads_with_cur_dir(s: Seq<char>) -> bool {
    !is_absolute(s) && s.len() > 0 && s[0] == '.' && (s.len() == 1 || s[1] == '/')
}

/// The components of a path: the root (`/`) or a leading `.` when there is
/// one, then every named piece; empty pieces and inner `.` pieces vanish.
pub open spec fn components(s: Seq<char>) -> Seq<Seq<char>> {
    if is_absolute(s) {
        seq![seq!['/']] + named_parts(split_on(s, '/'))
    } else if leads_with_cur_dir(s) {
        seq![seq!['.']] + named_parts(split_on(s, '/'))
    } else {
        named_parts(split_on(s, '/'))
    }
}

/// The final component of a path when it is a name: not the root, a
/// leading `.`, or `..`. This is what `Path::file_name` documents.
pub open spec fn final_name(s: Seq<char>) -> Option<Seq<char>> {
    let c = components(s);
    if c.len() > 0 && c.last() != seq!['/'] && c.last() != seq!['.'] && c.last() != seq!['.', '.'] {
        Some(c.last())
    } else {
        None
    }
}

/// `path == base || path.starts_with(base)`: the components of `base` begin
/// those of `path`.
pub open spec fn at_or_under(path: Seq<char>, base: Seq<char>) -> bool {
    let (p, b) = (components(path), components(base));
    b.len() <= p.len() && p.take(b.len() as int) == b
}

/// An absolute path other than the filesystem root itself.
pub open spec fn is_proper_absolute(s: Seq<char>) -> bool {
    is_absolute(s) && components(s).len() > 1
}

fn named(ps: &Vec<Vec<char>>) -> (r: Vec<Vec<char>>)
    ensures
        views(r@) == named_parts(views(ps@)),
{
    let mut r: Vec<Vec<char>> = Vec::new();
    let mut i: usize = 0;
    while i < ps.len()
        invariant
            i <= ps.len(),
            views(r@) == named_parts(views(ps@).take(i as int)),
        decreases ps.len() - i,
    {
        let ghost before = r@;
        assert(views(ps@).take(i + 1).drop_last() == views(ps@).take(i as int));
        assert(views(ps@).take(i + 1).last() == ps@[i as int]@);
        let p = &ps[i];
        if p.len() > 0 && !(p.len() == 1 && p[0] == '.') {
            assert(is_named_part(p@));
            let c = slice(p, 0, p.len());
            assert(c@ =~= p@);
            r.push(c);
            assert(views(r@) =~= views(before).push(p@));
        } else {
            assert(!is_named_part(p@)) by {
                if p@.len() == 1 && p@[0] == '.' {
                    assert(p@ =~= seq!['.']);
                }
            }
        }
        i = i + 1;
    }
    assert(views(ps@).take(ps.len() as int) == views(ps@));
    r
}

/// The components of `s`, each as characters.
pub fn path_components(s: &str) -> (r: Vec<Vec<char>>)
    ensures
        views(r@) == components(s@),
{
    let v = chars_of(s);
    let pieces = split_char(&v, '/');
    let parts = named(&pieces);
    let mut r: Vec<Vec<char>> = Vec::new();
    if v.len() > 0 && v[0] == '/' {
        let mut root: Vec<char> = Vec::new();
        root.push('/');
        r.push(root);
    } else if v.len() > 0 && v[0] == '.' && (v.len() == 1 || v[1] == '/') {
        let mut cur: Vec<char> = Vec::new();
        cur.push('.');
        r.push(cur);
    }
    let ghost head = views(r@);
    let mut i: usize = 0;
    while i < parts.len()
        invariant
            i <= parts.len(),
            views(r@) == head + views(parts@).take(i as int),
        decreases parts.len() - i,
    {
        let c = slice(&parts[i], 0, parts[i].len());
        assert(c@ =~= parts@[i as int]@);
        let ghost before = r@;
        r.push(c);
        assert(views(r@) =~= views(before).push(c@));
        assert(views(parts@).take(i + 1) == views(parts@).take(i as int).push(parts@[i as int]@));
        assert(views(r@) =~= head + views(parts@).take(i + 1));
        i = i + 1;
    }
    assert(views(parts@).take(parts.len() as int) == views(parts@));
    assert(views(r@) =~= components(s@));
    r
}

/// Whether `path` is `base` or lies under it, component by component.
pub fn is_at_or_under(path: &str, base: &str) -> (r: bool)
    ensures
        r == at_or_under(path@, base@),
{
    let p = path_components(path);
    let b = path_components(base);
    if b.len() > p.len() {
        return false;
    }
    let mut i: usize = 0;
    while i < b.len()
        invariant
            i <= b.len() <= p.len(),
            views(p@) == components(path@),
            views(b@) == components(base@),
            forall|j: int| 0 <= j < i ==> views(p@)[j] == views(b@)[j],
        decreases b.len() - i,
    {
        if !chars_eq(&p[i], &b[i]) {
            assert(views(p@).take(b.len() as int)[i as int] == views(p@)[i as int]);
            assert(views(p@)[i as int] == p@[i as int]@);
            assert(views(p@).take(b.len() as int)[i as int] != views(b@)[i as int]);
            return false;
        }
        i = i + 1;
    }
    assert(views(p@).take(b.len() as int) =~= views(b@));
    true
}

/// Whether `s` is absolute and names something below the root.
pub fn is_safe_target(s: &str) -> (r: bool)
    ensures
        r == is_proper_absolute(s@),
{
    let c = path_components(s);
    let v = chars_of(s);
    v.len() > 0 && v[0] == '/' && c.len() > 1
}

} // verus!
