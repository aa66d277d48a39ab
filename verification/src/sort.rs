//! Stable insertion sorts, specified by the order they insert in.

use vstd::prelude::*;

use crate::text::{chars_eq, chars_of};

verus! {

/// `x` placed into `t` before the first element it goes before; after all
/// the others, so equal elements keep their order.
pub open spec fn insert_by<A>(t: Seq<A>, x: A, before: spec_fn(A, A) -> bool) -> Seq<A>
    decreases t.len(),
{
    if t.len() == 0 {
        seq![x]
    } else if before(x, t[0]) {
        seq![x] + t
    } else {
        seq![t[0]] + insert_by(t.skip(1), x, before)
    }
}

/// The stable sort of `s` by `before`: each element inserted in turn.
pub open spec fn sort_by<A>(s: Seq<A>, before: spec_fn(A, A) -> bool) -> Seq<A>
    decreases s.len(),
{
    if s.len() == 0 {
        seq![]
    } else {
        insert_by(sort_by(s.drop_last(), before), s.last(), before)
    }
}

/// Inserting goes to the first place whose element `x` goes before.
pub proof fn lemma_insert_by_at<A>(t: Seq<A>, x: A, before: spec_fn(A, A) -> bool, j: int)
    requires
        0 <= j <= t.len(),
        forall|i: int| 0 <= i < j ==> !before(x, #[trigger] t[i]),
        j < t.len() ==> before(x, t[j]),
    ensures
        insert_by(t, x, before) == t.insert(j, x),
    decreases j,
{
    if j == 0 {
        assert(t.insert(0, x) =~= seq![x] + t);
    } else {
        let u = t.skip(1);
        assert forall|i: int| 0 <= i < j - 1 implies !before(x, #[trigger] u[i]) by {
            assert(u[i] == t[i + 1]);
        }
        lemma_insert_by_at(u, x, before, j - 1);
        assert(seq![t[0]] + u.insert(j - 1, x) =~= t.insert(j, x));
    }
}

/// The length of a string in bytes, as `str::len` reports it.
pub open spec fn byte_len(s: Seq<char>) -> usize {
    vstd::utf8::encode_utf8(s).len() as usize
}

/// Longer strings first.
pub open spec fn longer_first() -> spec_fn(Seq<char>, Seq<char>) -> bool {
    |x: Seq<char>, y: Seq<char>| byte_len(y) < byte_len(x)
}

/// No string is longer than one before it.
pub open spec fn longest_first(s: Seq<Seq<char>>) -> bool {
    forall|i: int, j: int| 0 <= i < j < s.len() ==> byte_len(#[trigger] s[j]) <= byte_len(#[trigger] s[i])
}

/// `before` is a strict order: nothing goes before itself, and going
/// before is transitive.
pub open spec fn strict_order<A>(before: spec_fn(A, A) -> bool) -> bool {
    &&& forall|a: A| !#[trigger] before(a, a)
    &&& forall|a: A, b: A, c: A| #[trigger] before(a, b) && #[trigger] before(b, c) ==> before(a, c)
}

/// No element goes before one that precedes it.
pub open spec fn sorted_by<A>(s: Seq<A>, before: spec_fn(A, A) -> bool) -> bool {
    forall|i: int, j: int| 0 <= i < j < s.len() ==> !before(#[trigger] s[j], #[trigger] s[i])
}

proof fn lemma_insert_sorted<A>(t: Seq<A>, x: A, before: spec_fn(A, A) -> bool)
    requires
        strict_order(before),
        sorted_by(t, before),
    ensures
        sorted_by(insert_by(t, x, before), before),
        insert_by(t, x, before).to_multiset() == t.to_multiset().insert(x),
    decreases t.len(),
{
    broadcast use vstd::seq_lib::group_to_multiset_ensures;
    let r = insert_by(t, x, before);
    if t.len() == 0 {
        assert(r == seq![x]);
        assert(seq![x] =~= Seq::<A>::empty().push(x));
        vstd::seq_lib::to_multiset_build(Seq::<A>::empty(), x);
        assert(t =~= Seq::<A>::empty());
    } else if before(x, t[0]) {
        assert(r == seq![x] + t);
        assert(seq![x] + t =~= t.insert(0, x));
        vstd::seq_lib::to_multiset_insert(t, 0, x);
        assert forall|i: int, j: int| 0 <= i < j < r.len() implies !before(#[trigger] r[j], #[trigger] r[i]) by {
            if i > 0 {
                assert(r[i] == t[i - 1] && r[j] == t[j - 1]);
            } else {
                assert(r[j] == t[j - 1]);
                if before(t[j - 1], x) {
                    assert(before(t[j - 1], t[0]));
                    if j - 1 > 0 {
                        assert(!before(t[j - 1], t[0]));
                    } else {
                        assert(!before(t[0], t[0]));
                    }
                }
            }
        }
    } else {
        let u = t.skip(1);
        assert forall|i: int, j: int| 0 <= i < j < u.len() implies !before(#[trigger] u[j], #[trigger] u[i]) by {
            assert(u[i] == t[i + 1] && u[j] == t[j + 1]);
        }
        lemma_insert_sorted(u, x, before);
        let w = insert_by(u, x, before);
        assert(r == seq![t[0]] + w);
        assert(seq![t[0]] + w =~= w.insert(0, t[0]));
        vstd::seq_lib::to_multiset_insert(w, 0, t[0]);
        assert(u.insert(0, t[0]) =~= t);
        vstd::seq_lib::to_multiset_insert(u, 0, t[0]);
        assert(w.to_multiset().insert(t[0]) =~= u.to_multiset().insert(t[0]).insert(x));
        assert forall|i: int, j: int| 0 <= i < j < r.len() implies !before(#[trigger] r[j], #[trigger] r[i]) by {
            if i > 0 {
                assert(r[i] == w[i - 1] && r[j] == w[j - 1]);
            } else {
                assert(r[j] == w[j - 1]);
                assert(w.to_multiset().count(w[j - 1]) > 0);
                if w[j - 1] != x {
                    assert(u.to_multiset().count(w[j - 1]) > 0);
                    assert(u.contains(w[j - 1]));
                    let k = choose|k: int| 0 <= k < u.len() && u[k] == w[j - 1];
                    assert(t[k + 1] == w[j - 1]);
                }
            }
        }
    }
}

/// A stable sort by a strict order leaves no element before one it does
/// not go before, and keeps every element as often as it was given.
pub proof fn law_sort_by_sorts<A>(s: Seq<A>, before: spec_fn(A, A) -> bool)
    requires
        strict_order(before),
    ensures
        sorted_by(sort_by(s, before), before),
        sort_by(s, before).to_multiset() == s.to_multiset(),
    decreases s.len(),
{
    broadcast use vstd::seq_lib::group_to_multiset_ensures;
    if s.len() == 0 {
        assert(s =~= Seq::<A>::empty());
    } else {
        law_sort_by_sorts(s.drop_last(), before);
        lemma_insert_sorted(sort_by(s.drop_last(), before), s.last(), before);
        assert(s.drop_last().push(s.last()) =~= s);
        vstd::seq_lib::to_multiset_build(s.drop_last(), s.last());
    }
}

/// Sorting longest first leaves no string longer than one before it, and
/// keeps every string as often as it was given.
pub proof fn law_longest_first_sort(s: Seq<Seq<char>>)
    ensures
        longest_first(sort_by(s, longer_first())),
        sort_by(s, longer_first()).to_multiset() == s.to_multiset(),
{
    law_sort_by_sorts(s, longer_first());
    let r = sort_by(s, longer_first());
    assert forall|i: int, j: int| 0 <= i < j < r.len() implies byte_len(#[trigger] r[j]) <= byte_len(
        #[trigger] r[i],
    ) by {
        assert(!(longer_first())(r[j], r[i]));
    }
}

/// Code-point order, which is also the byte order of UTF-8 strings.
pub open spec fn lex_lt(a: Seq<char>, b: Seq<char>) -> bool
    decreases a.len(),
{
    if a.len() == 0 {
        b.len() > 0
    } else if b.len() == 0 {
        false
    } else if a[0] != b[0] {
        a[0] < b[0]
    } else {
        lex_lt(a.skip(1), b.skip(1))
    }
}

/// Ascending order of strings.
pub open spec fn ascending() -> spec_fn(Seq<char>, Seq<char>) -> bool {
    |x: Seq<char>, y: Seq<char>| lex_lt(x, y)
}

pub open spec fn string_views(v: Seq<String>) -> Seq<Seq<char>> {
    v.map_values(|s: String| s@)
}

/// Whether `n` is one of `v`.
pub fn contains_string(v: &Vec<String>, n: &str) -> (r: bool)
    ensures
        r == string_views(v@).contains(n@),
{
    let nv = chars_of(n);
    let mut i: usize = 0;
    while i < v.len()
        invariant
            i <= v.len(),
            nv@ == n@,
            forall|j: int| 0 <= j < i ==> v@[j]@ != n@,
        decreases v.len() - i,
    {
        if chars_eq(&chars_of(v[i].as_str()), &nv) {
            assert(string_views(v@)[i as int] == n@);
            return true;
        }
        i = i + 1;
    }
    proof {
        if string_views(v@).contains(n@) {
            let w = choose|w: int| 0 <= w < v@.len() && string_views(v@)[w] == n@;
            assert(v@[w]@ == n@);
        }
    }
    false
}

/// Whether `a` sorts strictly before `b`.
pub fn str_lt(a: &str, b: &str) -> (r: bool)
    ensures
        r == lex_lt(a@, b@),
{
    let x = chars_of(a);
    let y = chars_of(b);
    let mut i: usize = 0;
    assert(a@.skip(0) =~= a@);
    assert(b@.skip(0) =~= b@);
    while i < x.len() && i < y.len() && x[i] == y[i]
        invariant
            i <= x.len(),
            i <= y.len(),
            x@ == a@,
            y@ == b@,
            lex_lt(a@, b@) == lex_lt(a@.skip(i as int), b@.skip(i as int)),
        decreases x.len() - i,
    {
        assert(a@.skip(i as int).skip(1) =~= a@.skip(i + 1));
        assert(b@.skip(i as int).skip(1) =~= b@.skip(i + 1));
        i = i + 1;
    }
    if i == x.len() {
        i < y.len()
    } else if i == y.len() {
        false
    } else {
        x[i] < y[i]
    }
}

/// Place `x` into the sorted `v` with `lt` the exec form of `before`.
fn insert_sorted(v: &mut Vec<String>, x: String, descending_len: bool)
    ensures
        descending_len ==> string_views(final(v)@) == insert_by(
            string_views(old(v)@),
            x@,
            longer_first(),
        ),
        !descending_len ==> string_views(final(v)@) == insert_by(
            string_views(old(v)@),
            x@,
            ascending(),
        ),
{
    let ghost before = if descending_len {
        longer_first()
    } else {
        ascending()
    };
    let mut j: usize = 0;
    loop
        invariant_except_break
            j <= v.len(),
            forall|i: int| 0 <= i < j ==> !before(x@, #[trigger] string_views(v@)[i]),
            before == if descending_len {
                longer_first()
            } else {
                ascending()
            },
        ensures
            j <= v.len(),
            forall|i: int| 0 <= i < j ==> !before(x@, #[trigger] string_views(v@)[i]),
            j < v.len() ==> before(x@, string_views(v@)[j as int]),
        decreases v.len() - j,
    {
        if j == v.len() {
            break;
        }
        let goes_before = if descending_len {
            v[j].as_str().len() < x.as_str().len()
        } else {
            str_lt(x.as_str(), v[j].as_str())
        };
        if goes_before {
            break;
        }
        j = j + 1;
    }
    proof {
        lemma_insert_by_at(string_views(v@), x@, before, j as int);
    }
    let ghost old_v = v@;
    v.insert(j, x);
    assert(string_views(v@) =~= string_views(old_v).insert(j as int, x@));
}

/// Sort stably by `longer_first` (`descending_len`) or `ascending`.
pub fn sort_strings(v: Vec<String>, descending_len: bool) -> (r: Vec<String>)
    ensures
        descending_len ==> string_views(r@) == sort_by(string_views(v@), longer_first()),
        !descending_len ==> string_views(r@) == sort_by(string_views(v@), ascending()),
{
    let mut out: Vec<String> = Vec::new();
    let ghost before = if descending_len {
        longer_first()
    } else {
        ascending()
    };
    let mut rest = v;
    let ghost all = string_views(rest@);
    let ghost mut i: int = 0;
    while rest.len() > 0
        invariant
            before == if descending_len {
                longer_first()
            } else {
                ascending()
            },
            0 <= i <= all.len(),
            all.len() == i + rest.len(),
            string_views(rest@) == all.skip(i),
            string_views(out@) == sort_by(all.take(i), before),
        decreases rest.len(),
    {
        let ghost old_rest = rest@;
        let x = rest.remove(0);
        assert(string_views(old_rest)[0] == all[i]);
        assert(x@ == all[i]);
        assert(rest@ =~= old_rest.subrange(1, old_rest.len() as int));
        assert(string_views(rest@) =~= string_views(old_rest).skip(1));
        assert(all.skip(i).skip(1) =~= all.skip(i + 1));
        insert_sorted(&mut out, x, descending_len);
        assert(all.take(i + 1).drop_last() =~= all.take(i));
        proof {
            i = i + 1;
        }
    }
    assert(all.take(all.len() as int) =~= all);
    out
}

} // verus!
