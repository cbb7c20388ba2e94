//! The order of texts, ordered sets of texts, and sorting.
use crate::text::{chars_of, str_eq, views};
use vstd::prelude::*;
use vstd::string::*;

verus! {

/// Whether `a` comes before `b`: at the first difference it has the smaller
/// character, or it ends there.
pub open spec fn precedes(a: Seq<char>, b: Seq<char>) -> bool
    decreases a.len(),
{
    if b.len() == 0 {
        false
    } else if a.len() == 0 {
        true
    } else if a[0] == b[0] {
        precedes(a.drop_first(), b.drop_first())
    } else {
        a[0] < b[0]
    }
}

pub proof fn lemma_precedes_irreflexive(a: Seq<char>)
    ensures
        !precedes(a, a),
    decreases a.len(),
{
    if a.len() > 0 {
        lemma_precedes_irreflexive(a.drop_first());
    }
}

pub proof fn lemma_precedes_total(a: Seq<char>, b: Seq<char>)
    ensures
        a == b || precedes(a, b) || precedes(b, a),
    decreases a.len(),
{
    if a.len() > 0 && b.len() > 0 && a[0] == b[0] {
        lemma_precedes_total(a.drop_first(), b.drop_first());
        if a.drop_first() == b.drop_first() {
            assert(a =~= seq![a[0]] + a.drop_first());
            assert(b =~= seq![b[0]] + b.drop_first());
        }
    } else if a.len() == 0 && b.len() == 0 {
        assert(a =~= b);
    }
}

pub proof fn lemma_precedes_transitive(a: Seq<char>, b: Seq<char>, c: Seq<char>)
    requires
        precedes(a, b),
        precedes(b, c),
    ensures
        precedes(a, c),
    decreases a.len(),
{
    if a.len() > 0 && b.len() > 0 && c.len() > 0 && a[0] == b[0] && b[0] == c[0] {
        lemma_precedes_transitive(a.drop_first(), b.drop_first(), c.drop_first());
    }
}

pub fn str_less(a: &str, b: &str) -> (r: bool)
    ensures
        r == precedes(a@, b@),
{
    let ac = chars_of(a);
    let bc = chars_of(b);
    let mut i: usize = 0;
    assert(a@.skip(0) =~= a@);
    assert(b@.skip(0) =~= b@);
    while i < ac.len() && i < bc.len()
        invariant
            ac@ == a@,
            bc@ == b@,
            i <= ac@.len(),
            i <= bc@.len(),
            precedes(a@, b@) == precedes(a@.skip(i as int), b@.skip(i as int)),
        decreases ac@.len() - i,
    {
        if ac[i] != bc[i] {
            return ac[i] < bc[i];
        }
        assert(a@.skip(i as int).drop_first() =~= a@.skip(i + 1));
        assert(b@.skip(i as int).drop_first() =~= b@.skip(i + 1));
        i += 1;
    }
    i < bc.len()
}

/// Each item comes before the next, so none occurs twice.
pub open spec fn increasing(s: Seq<Seq<char>>) -> bool {
    forall|i: int, j: int| 0 <= i < j < s.len() ==> precedes(#[trigger] s[i], #[trigger] s[j])
}

/// An increasing list with one text more, in its place, unless it is there.
pub open spec fn inserted(s: Seq<Seq<char>>, x: Seq<char>) -> Seq<Seq<char>>
    decreases s.len(),
{
    if s.len() == 0 {
        seq![x]
    } else if x == s.last() {
        s
    } else if precedes(s.last(), x) {
        s.push(x)
    } else {
        inserted(s.drop_last(), x).push(s.last())
    }
}

/// The different texts of a list, in order.
pub open spec fn ordered_set(xs: Seq<Seq<char>>) -> Seq<Seq<char>>
    decreases xs.len(),
{
    if xs.len() == 0 {
        Seq::empty()
    } else {
        inserted(ordered_set(xs.drop_last()), xs.last())
    }
}

pub proof fn lemma_inserted(s: Seq<Seq<char>>, x: Seq<char>)
    requires
        increasing(s),
    ensures
        increasing(inserted(s, x)),
        forall|y: Seq<char>| #[trigger]
            inserted(s, x).contains(y) <==> (y == x || s.contains(y)),
    decreases s.len(),
{
    let r = inserted(s, x);
    if s.len() == 0 {
        assert(r[0] == x);
    } else if x == s.last() {
    } else if precedes(s.last(), x) {
        assert forall|i: int, j: int| 0 <= i < j < r.len() implies precedes(
            #[trigger] r[i],
            #[trigger] r[j],
        ) by {
            if j == s.len() && i < s.len() - 1 {
                lemma_precedes_transitive(s[i], s.last(), x);
            }
        }
        assert(r[s.len() as int] == x);
        assert forall|y: Seq<char>| #[trigger] r.contains(y) <==> (y == x || s.contains(y)) by {
            if s.contains(y) {
                let k = choose|k: int| 0 <= k < s.len() && s[k] == y;
                assert(r[k] == y);
            }
        }
    } else {
        let init = s.drop_last();
        assert(increasing(init)) by {
            assert forall|i: int, j: int| 0 <= i < j < init.len() implies precedes(
                #[trigger] init[i],
                #[trigger] init[j],
            ) by {
                assert(precedes(s[i], s[j]));
            }
        }
        lemma_inserted(init, x);
        lemma_precedes_total(x, s.last());
        let mid = inserted(init, x);
        assert forall|i: int, j: int| 0 <= i < j < r.len() implies precedes(
            #[trigger] r[i],
            #[trigger] r[j],
        ) by {
            if j == mid.len() {
                assert(mid.contains(mid[i]));
                if mid[i] != x {
                    let k = choose|k: int| 0 <= k < init.len() && init[k] == mid[i];
                    assert(precedes(s[k], s[s.len() - 1]));
                }
            } else {
                assert(precedes(mid[i], mid[j]));
            }
        }
        assert forall|y: Seq<char>| #[trigger] r.contains(y) <==> (y == x || s.contains(y)) by {
            if r.contains(y) {
                let k = choose|k: int| 0 <= k < r.len() && r[k] == y;
                if k < mid.len() {
                    assert(mid.contains(y));
                    if y != x {
                        let n = choose|n: int| 0 <= n < init.len() && init[n] == y;
                        assert(s[n] == y);
                    }
                } else {
                    assert(s[s.len() - 1] == y);
                }
            }
            if y == x || s.contains(y) {
                if y == s.last() {
                    assert(r[mid.len() as int] == y);
                } else {
                    if y != x {
                        let k = choose|k: int| 0 <= k < s.len() && s[k] == y;
                        assert(init[k] == y);
                        assert(init.contains(y));
                    }
                    assert(mid.contains(y));
                    let k = choose|k: int| 0 <= k < mid.len() && mid[k] == y;
                    assert(r[k] == y);
                }
            }
        }
    }
}

/// An ordered set holds the texts of its list and no others, in order.
pub proof fn lemma_ordered_set(xs: Seq<Seq<char>>)
    ensures
        increasing(ordered_set(xs)),
        forall|y: Seq<char>| #[trigger] ordered_set(xs).contains(y) <==> xs.contains(y),
    decreases xs.len(),
{
    if xs.len() > 0 {
        let init = xs.drop_last();
        lemma_ordered_set(init);
        lemma_inserted(ordered_set(init), xs.last());
        assert forall|y: Seq<char>| #[trigger] ordered_set(xs).contains(y) <==> xs.contains(y) by {
            if xs.contains(y) {
                let k = choose|k: int| 0 <= k < xs.len() && xs[k] == y;
                if k < init.len() {
                    assert(init[k] == y);
                    assert(init.contains(y));
                }
            }
            if init.contains(y) {
                let k = choose|k: int| 0 <= k < init.len() && init[k] == y;
                assert(xs[k] == y);
            }
            if y == xs.last() {
                assert(xs[xs.len() - 1] == y);
            }
        }
    }
}

/// Inserting passes over the texts at the end that come later.
proof fn lemma_inserted_before(s: Seq<Seq<char>>, x: Seq<char>, p: int)
    requires
        0 <= p <= s.len(),
        forall|k: int| p <= k < s.len() ==> precedes(x, #[trigger] s[k]),
    ensures
        inserted(s, x) == inserted(s.take(p), x) + s.skip(p),
    decreases s.len() - p,
{
    if p == s.len() {
        assert(s.take(p) =~= s);
        assert(inserted(s.take(p), x) + s.skip(p) =~= inserted(s, x));
    } else {
        let init = s.drop_last();
        assert(precedes(x, s[s.len() - 1]));
        lemma_precedes_irreflexive(x);
        if precedes(s.last(), x) {
            lemma_precedes_transitive(x, s.last(), x);
        }
        assert forall|k: int| p <= k < init.len() implies precedes(x, #[trigger] init[k]) by {
            assert(init[k] == s[k]);
        }
        lemma_inserted_before(init, x, p);
        assert(init.take(p) =~= s.take(p));
        assert(inserted(s, x) =~= inserted(s.take(p), x) + s.skip(p));
    }
}

pub fn insert_text(set: &mut Vec<String>, x: &str)
    ensures
        views(final(set)@) == inserted(views(old(set)@), x@),
{
    let mut p: usize = set.len();
    let ghost before = views(set@);
    while p > 0 && str_less(x, set[p - 1].as_str())
        invariant
            p <= set@.len(),
            before == views(set@),
            forall|k: int| p <= k < set@.len() ==> precedes(x@, #[trigger] before[k]),
        decreases p,
    {
        p -= 1;
    }
    proof {
        lemma_inserted_before(before, x@, p as int);
        if p > 0 {
            assert(before.take(p as int).last() == before[p - 1]);
            lemma_precedes_total(x@, before[p - 1]);
        }
    }
    if p > 0 && str_eq(x, set[p - 1].as_str()) {
        assert(before.take(p as int) + before.skip(p as int) =~= before);
        return ;
    }
    set.insert(p, x.to_owned());
    assert(views(set@) =~= before.insert(p as int, x@));
    assert(before.insert(p as int, x@) =~= before.take(p as int).push(x@) + before.skip(p as int));
    proof {
        if p == 0 {
            assert(before.take(0) =~= Seq::<Seq<char>>::empty());
            assert(before.take(0).push(x@) =~= seq![x@]);
        }
    }
}

pub fn ordered_set_of(xs: &Vec<String>) -> (r: Vec<String>)
    ensures
        views(r@) == ordered_set(views(xs@)),
{
    let mut r: Vec<String> = Vec::new();
    let mut i: usize = 0;
    let ghost all = views(xs@);
    assert(views(r@) =~= ordered_set(all.take(0)));
    while i < xs.len()
        invariant
            i <= xs@.len(),
            all == views(xs@),
            views(r@) == ordered_set(all.take(i as int)),
        decreases xs@.len() - i,
    {
        assert(all.take(i + 1).drop_last() =~= all.take(i as int));
        assert(all.take(i + 1).last() == xs@[i as int]@);
        insert_text(&mut r, xs[i].as_str());
        i += 1;
    }
    assert(all.take(i as int) =~= all);
    r
}

pub fn contains_text(xs: &Vec<String>, x: &str) -> (r: bool)
    ensures
        r == views(xs@).contains(x@),
{
    let mut i: usize = 0;
    while i < xs.len()
        invariant
            i <= xs@.len(),
            forall|k: int| 0 <= k < i ==> #[trigger] views(xs@)[k] != x@,
        decreases xs@.len() - i,
    {
        if str_eq(xs[i].as_str(), x) {
            assert(views(xs@)[i as int] == x@);
            return true;
        }
        i += 1;
    }
    false
}

/// Whether one list of texts comes before another: at the first difference it
/// has the text that comes first, or it ends there.
pub open spec fn list_precedes(a: Seq<Seq<char>>, b: Seq<Seq<char>>) -> bool
    decreases a.len(),
{
    if b.len() == 0 {
        false
    } else if a.len() == 0 {
        true
    } else if a[0] == b[0] {
        list_precedes(a.drop_first(), b.drop_first())
    } else {
        precedes(a[0], b[0])
    }
}

pub fn list_less(a: &Vec<String>, b: &Vec<String>) -> (r: bool)
    ensures
        r == list_precedes(views(a@), views(b@)),
{
    let ghost av = views(a@);
    let ghost bv = views(b@);
    let mut i: usize = 0;
    assert(av.skip(0) =~= av);
    assert(bv.skip(0) =~= bv);
    while i < a.len() && i < b.len()
        invariant
            av == views(a@),
            bv == views(b@),
            i <= a@.len(),
            i <= b@.len(),
            list_precedes(av, bv) == list_precedes(av.skip(i as int), bv.skip(i as int)),
        decreases a@.len() - i,
    {
        assert(av.skip(i as int)[0] == a@[i as int]@);
        assert(bv.skip(i as int)[0] == b@[i as int]@);
        if !str_eq(a[i].as_str(), b[i].as_str()) {
            return str_less(a[i].as_str(), b[i].as_str());
        }
        assert(av.skip(i as int).drop_first() =~= av.skip(i + 1));
        assert(bv.skip(i as int).drop_first() =~= bv.skip(i + 1));
        i += 1;
    }
    i < b.len()
}

pub proof fn lemma_list_precedes_asymmetric(a: Seq<Seq<char>>, b: Seq<Seq<char>>)
    requires
        list_precedes(a, b),
    ensures
        !list_precedes(b, a),
    decreases a.len(),
{
    if a.len() > 0 && b.len() > 0 {
        if a[0] == b[0] {
            lemma_list_precedes_asymmetric(a.drop_first(), b.drop_first());
        } else if precedes(b[0], a[0]) {
            lemma_precedes_transitive(a[0], b[0], a[0]);
            lemma_precedes_irreflexive(a[0]);
        }
    }
}

/// What does not come after a second list, which does not come after a third,
/// does not come after the third.
pub proof fn lemma_list_order(a: Seq<Seq<char>>, b: Seq<Seq<char>>, c: Seq<Seq<char>>)
    requires
        !list_precedes(b, a),
        !list_precedes(c, b),
    ensures
        !list_precedes(c, a),
    decreases a.len(),
{
    if a.len() > 0 && b.len() > 0 && c.len() > 0 {
        lemma_precedes_total(a[0], b[0]);
        lemma_precedes_total(b[0], c[0]);
        if a[0] == b[0] && b[0] == c[0] {
            lemma_list_order(a.drop_first(), b.drop_first(), c.drop_first());
        } else if a[0] != b[0] && b[0] != c[0] {
            lemma_precedes_transitive(a[0], b[0], c[0]);
        }
        if precedes(a[0], c[0]) {
            lemma_precedes_irreflexive(a[0]);
            if precedes(c[0], a[0]) {
                lemma_precedes_transitive(a[0], c[0], a[0]);
            }
        }
    }
}

/// Values with an order in which they are sorted.
pub trait Ranked: Sized {
    spec fn ranks_before(&self, other: &Self) -> bool;

    fn is_before(&self, other: &Self) -> (r: bool)
        ensures
            r == self.ranks_before(other),
    ;
}

/// A sorted list with one value more, behind those that do not come after it.
pub open spec fn placed<'a, T: Ranked>(s: Seq<&'a T>, x: &'a T) -> Seq<&'a T>
    decreases s.len(),
{
    if s.len() > 0 && x.ranks_before(s.last()) {
        placed(s.drop_last(), x).push(s.last())
    } else {
        s.push(x)
    }
}

/// The values of a list in order; those of one rank stay as they were.
pub open spec fn ranked<'a, T: Ranked>(s: Seq<&'a T>) -> Seq<&'a T>
    decreases s.len(),
{
    if s.len() == 0 {
        Seq::empty()
    } else {
        placed(ranked(s.drop_last()), s.last())
    }
}

proof fn lemma_placed_before<'a, T: Ranked>(s: Seq<&'a T>, x: &'a T, p: int)
    requires
        0 <= p <= s.len(),
        forall|k: int| p <= k < s.len() ==> x.ranks_before(#[trigger] s[k]),
    ensures
        placed(s, x) == placed(s.take(p), x) + s.skip(p),
    decreases s.len() - p,
{
    if p == s.len() {
        assert(s.take(p) =~= s);
        assert(placed(s.take(p), x) + s.skip(p) =~= placed(s, x));
    } else {
        let init = s.drop_last();
        assert(x.ranks_before(s[s.len() - 1]));
        assert forall|k: int| p <= k < init.len() implies x.ranks_before(#[trigger] init[k]) by {
            assert(init[k] == s[k]);
        }
        lemma_placed_before(init, x, p);
        assert(init.take(p) =~= s.take(p));
        assert(placed(s, x) =~= placed(s.take(p), x) + s.skip(p));
    }
}

pub fn sort_ranked<'a, T: Ranked>(items: &Vec<&'a T>) -> (r: Vec<&'a T>)
    ensures
        r@ == ranked(items@),
{
    let mut r: Vec<&'a T> = Vec::new();
    let mut i: usize = 0;
    assert(items@.take(0) =~= Seq::<&T>::empty());
    while i < items.len()
        invariant
            i <= items@.len(),
            r@ == ranked(items@.take(i as int)),
        decreases items@.len() - i,
    {
        let x: &'a T = items[i];
        let ghost before = r@;
        let mut p: usize = r.len();
        while p > 0 && x.is_before(r[p - 1])
            invariant
                p <= r@.len(),
                r@ == before,
                forall|k: int| p <= k < before.len() ==> x.ranks_before(#[trigger] before[k]),
            decreases p,
        {
            p -= 1;
        }
        proof {
            lemma_placed_before(before, x, p as int);
            if p > 0 {
                assert(before.take(p as int).last() == before[p - 1]);
            }
        }
        r.insert(p, x);
        assert(r@ =~= before.take(p as int).push(x) + before.skip(p as int));
        assert(items@.take(i + 1).drop_last() =~= items@.take(i as int));
        i += 1;
    }
    assert(items@.take(i as int) =~= items@);
    r
}


pub proof fn lemma_placed_len<'a, T: Ranked>(s: Seq<&'a T>, x: &'a T)
    ensures
        placed(s, x).len() == s.len() + 1,
    decreases s.len(),
{
    if s.len() > 0 && x.ranks_before(s.last()) {
        lemma_placed_len(s.drop_last(), x);
    }
}

/// Whether no value of a list comes before one that stands ahead of it.
pub open spec fn in_rank_order<'a, T: Ranked>(s: Seq<&'a T>) -> bool {
    forall|i: int, j: int|
        0 <= i < j < s.len() ==> !(#[trigger] s[j]).ranks_before(#[trigger] s[i])
}

/// Whether the ranks of values are an order: no two values come before each
/// other, and not to come after is transitive.
pub open spec fn ranks_are_an_order<T: Ranked>() -> bool {
    &&& forall|a: &T, b: &T| #[trigger] a.ranks_before(b) ==> !b.ranks_before(a)
    &&& forall|a: &T, b: &T, c: &T|
        !(#[trigger] b.ranks_before(a)) && !(#[trigger] c.ranks_before(b)) ==> !c.ranks_before(a)
}

proof fn lemma_placed_order<'a, T: Ranked>(s: Seq<&'a T>, x: &'a T)
    requires
        ranks_are_an_order::<T>(),
        in_rank_order(s),
    ensures
        in_rank_order(placed(s, x)),
        placed(s, x).to_multiset() =~= s.to_multiset().insert(x),
        forall|i: int|
            0 <= i < placed(s, x).len() ==> #[trigger] placed(s, x)[i] == x || s.contains(
                placed(s, x)[i],
            ),
    decreases s.len(),
{
    broadcast use vstd::seq_lib::group_to_multiset_ensures;

    let all = placed(s, x);
    if s.len() > 0 && x.ranks_before(s.last()) {
        let init = s.drop_last();
        assert forall|i: int, j: int| 0 <= i < j < init.len() implies !(
        #[trigger] init[j]).ranks_before(#[trigger] init[i]) by {
            assert(init[i] == s[i] && init[j] == s[j]);
        }
        lemma_placed_order(init, x);
        let rest = placed(init, x);
        assert(s =~= init.push(s.last()));
        assert forall|i: int| 0 <= i < rest.len() implies !s.last().ranks_before(
            #[trigger] rest[i],
        ) by {
            if rest[i] != x {
                let k = choose|k: int| 0 <= k < init.len() && init[k] == rest[i];
                assert(s[k] == rest[i]);
                assert(!s[s.len() - 1].ranks_before(s[k]));
            }
        }
        assert forall|i: int, j: int| 0 <= i < j < all.len() implies !(
        #[trigger] all[j]).ranks_before(#[trigger] all[i]) by {
            assert(all[i] == rest[i]);
            if j < rest.len() {
                assert(all[j] == rest[j]);
            }
        }
        assert forall|i: int| 0 <= i < all.len() implies #[trigger] all[i] == x || s.contains(
            all[i],
        ) by {
            if i < rest.len() {
                if rest[i] != x {
                    let k = choose|k: int| 0 <= k < init.len() && init[k] == rest[i];
                    assert(s[k] == all[i]);
                }
            } else {
                assert(s[s.len() - 1] == all[i]);
            }
        }
    } else {
        assert forall|i: int, j: int| 0 <= i < j < all.len() implies !(
        #[trigger] all[j]).ranks_before(#[trigger] all[i]) by {
            if j < s.len() {
                assert(all[i] == s[i] && all[j] == s[j]);
            } else {
                assert(all[i] == s[i]);
                if i < s.len() - 1 {
                    assert(!s[s.len() - 1].ranks_before(s[i]));
                }
            }
        }
        assert forall|i: int| 0 <= i < all.len() implies #[trigger] all[i] == x || s.contains(
            all[i],
        ) by {
            if i < s.len() {
                assert(s[i] == all[i]);
            }
        }
    }
}

/// Sorting puts the values in order and keeps each of them.
pub proof fn lemma_ranked_order<'a, T: Ranked>(s: Seq<&'a T>)
    requires
        ranks_are_an_order::<T>(),
    ensures
        in_rank_order(ranked(s)),
        ranked(s).to_multiset() =~= s.to_multiset(),
    decreases s.len(),
{
    broadcast use vstd::seq_lib::group_to_multiset_ensures;

    if s.len() > 0 {
        let init = s.drop_last();
        lemma_ranked_order(init);
        lemma_placed_order(ranked(init), s.last());
        assert(s =~= init.push(s.last()));
    }
}

proof fn lemma_placed_contains<'a, T: Ranked>(s: Seq<&'a T>, x: &'a T, y: &'a T)
    ensures
        placed(s, x).contains(y) <==> s.contains(y) || y == x,
    decreases s.len(),
{
    if s.len() > 0 && x.ranks_before(s.last()) {
        let init = s.drop_last();
        lemma_placed_contains(init, x, y);
        assert(s =~= init.push(s.last()));
        lemma_push_contains(init, s.last(), y);
        lemma_push_contains(placed(init, x), s.last(), y);
    } else {
        lemma_push_contains(s, x, y);
    }
}

/// Sorting keeps each value.
pub proof fn lemma_ranked_contains<'a, T: Ranked>(s: Seq<&'a T>, y: &'a T)
    ensures
        ranked(s).contains(y) <==> s.contains(y),
    decreases s.len(),
{
    if s.len() > 0 {
        let init = s.drop_last();
        lemma_ranked_contains(init, y);
        lemma_placed_contains(ranked(init), s.last(), y);
        assert(s =~= init.push(s.last()));
        lemma_push_contains(init, s.last(), y);
    }
}

/// Sorting keeps the number of values.
pub proof fn lemma_ranked_len<'a, T: Ranked>(s: Seq<&'a T>)
    ensures
        ranked(s).len() == s.len(),
    decreases s.len(),
{
    if s.len() > 0 {
        lemma_ranked_len(s.drop_last());
        lemma_placed_len(ranked(s.drop_last()), s.last());
    }
}

pub proof fn lemma_inserted_len(s: Seq<Seq<char>>, x: Seq<char>)
    ensures
        inserted(s, x).len() <= s.len() + 1,
    decreases s.len(),
{
    if s.len() > 0 && x != s.last() && !precedes(s.last(), x) {
        lemma_inserted_len(s.drop_last(), x);
    }
}

/// An ordered set has no more texts than its list.
pub proof fn lemma_ordered_set_len(xs: Seq<Seq<char>>)
    ensures
        ordered_set(xs).len() <= xs.len(),
    decreases xs.len(),
{
    if xs.len() > 0 {
        lemma_ordered_set_len(xs.drop_last());
        lemma_inserted_len(ordered_set(xs.drop_last()), xs.last());
    }
}


proof fn lemma_increasing_init(s: Seq<Seq<char>>, y: Seq<char>)
    requires
        increasing(s),
        s.len() > 0,
    ensures
        increasing(s.drop_last()),
        s.drop_last().contains(y) <==> s.contains(y) && y != s.last(),
{
    let init = s.drop_last();
    assert forall|i: int, j: int| 0 <= i < j < init.len() implies precedes(
        #[trigger] init[i],
        #[trigger] init[j],
    ) by {
        assert(precedes(s[i], s[j]));
    }
    if init.contains(y) {
        let k = choose|k: int| 0 <= k < init.len() && init[k] == y;
        assert(s[k] == y);
        assert(precedes(s[k], s[s.len() - 1]));
        lemma_precedes_irreflexive(y);
    }
    if s.contains(y) && y != s.last() {
        let k = choose|k: int| 0 <= k < s.len() && s[k] == y;
        assert(init[k] == y);
    }
}

/// Increasing lists with the same members are the same.
pub proof fn lemma_increasing_unique(a: Seq<Seq<char>>, b: Seq<Seq<char>>)
    requires
        increasing(a),
        increasing(b),
        forall|y: Seq<char>| #[trigger] a.contains(y) <==> b.contains(y),
    ensures
        a == b,
    decreases a.len(),
{
    if a.len() == 0 {
        if b.len() > 0 {
            assert(b.contains(b[0]));
            assert(a.contains(b[0]));
        }
        assert(a =~= b);
    } else {
        assert(a.contains(a[a.len() - 1]));
        let k = choose|k: int| 0 <= k < b.len() && b[k] == a.last();
        assert(b.contains(b[b.len() - 1]));
        assert(a.contains(b.last()));
        let n = choose|n: int| 0 <= n < a.len() && a[n] == b.last();
        if a.last() != b.last() {
            assert(precedes(b[k], b[b.len() - 1]));
            assert(precedes(a[n], a[a.len() - 1]));
            lemma_precedes_transitive(a.last(), b.last(), a.last());
            lemma_precedes_irreflexive(a.last());
        }
        let ai = a.drop_last();
        let bi = b.drop_last();
        lemma_increasing_init(a, a.last());
        lemma_increasing_init(b, b.last());
        assert forall|y: Seq<char>| #[trigger] ai.contains(y) <==> bi.contains(y) by {
            lemma_increasing_init(a, y);
            lemma_increasing_init(b, y);
            assert(a.contains(y) <==> b.contains(y));
        }
        lemma_increasing_unique(ai, bi);
        assert(a =~= ai.push(a.last()));
        assert(b =~= bi.push(b.last()));
    }
}


pub open spec fn placed_by<V>(s: Seq<V>, x: V, before: spec_fn(V, V) -> bool) -> Seq<V>
    decreases s.len(),
{
    if s.len() > 0 && before(x, s.last()) {
        placed_by(s.drop_last(), x, before).push(s.last())
    } else {
        s.push(x)
    }
}

/// The values of a list in an order; those that the order does not tell apart
/// stay as they were.
pub open spec fn sorted_by<V>(s: Seq<V>, before: spec_fn(V, V) -> bool) -> Seq<V>
    decreases s.len(),
{
    if s.len() == 0 {
        Seq::empty()
    } else {
        placed_by(sorted_by(s.drop_last(), before), s.last(), before)
    }
}

pub open spec fn views_of<'a, T: View>(s: Seq<&'a T>) -> Seq<T::V> {
    s.map_values(|x: &T| x@)
}

proof fn lemma_placed_views<'a, T: Ranked + View>(
    s: Seq<&'a T>,
    x: &'a T,
    before: spec_fn(T::V, T::V) -> bool,
)
    requires
        forall|a: &T, b: &T| #[trigger] a.ranks_before(b) == before(a@, b@),
    ensures
        views_of(placed(s, x)) == placed_by(views_of(s), x@, before),
    decreases s.len(),
{
    if s.len() > 0 && x.ranks_before(s.last()) {
        lemma_placed_views(s.drop_last(), x, before);
        assert(views_of(s.drop_last()) =~= views_of(s).drop_last());
        assert(views_of(placed(s, x)) =~= views_of(placed(s.drop_last(), x)).push(s.last()@));
    } else {
        assert(views_of(s.push(x)) =~= views_of(s).push(x@));
    }
}

/// Sorting values sorts what they say.
pub proof fn lemma_ranked_views<'a, T: Ranked + View>(
    s: Seq<&'a T>,
    before: spec_fn(T::V, T::V) -> bool,
)
    requires
        forall|a: &T, b: &T| #[trigger] a.ranks_before(b) == before(a@, b@),
    ensures
        views_of(ranked(s)) == sorted_by(views_of(s), before),
    decreases s.len(),
{
    if s.len() > 0 {
        lemma_ranked_views(s.drop_last(), before);
        lemma_placed_views(ranked(s.drop_last()), s.last(), before);
        assert(views_of(s.drop_last()) =~= views_of(s).drop_last());
    } else {
        assert(views_of(ranked(s)) =~= Seq::<T::V>::empty());
    }
}

proof fn lemma_placed_by_contains<V>(s: Seq<V>, x: V, before: spec_fn(V, V) -> bool, y: V)
    ensures
        placed_by(s, x, before).contains(y) <==> s.contains(y) || y == x,
    decreases s.len(),
{
    let all = placed_by(s, x, before);
    if s.len() > 0 && before(x, s.last()) {
        let init = s.drop_last();
        lemma_placed_by_contains(init, x, before, y);
        let rest = placed_by(init, x, before);
        assert(s =~= init.push(s.last()));
        lemma_push_contains(init, s.last(), y);
        lemma_push_contains(rest, s.last(), y);
    } else {
        lemma_push_contains(s, x, y);
    }
}

pub proof fn lemma_push_contains<V>(s: Seq<V>, x: V, y: V)
    ensures
        s.push(x).contains(y) <==> s.contains(y) || y == x,
{
    if s.contains(y) {
        let k = choose|k: int| 0 <= k < s.len() && s[k] == y;
        assert(s.push(x)[k] == y);
    }
    if y == x {
        assert(s.push(x)[s.len() as int] == y);
    }
    if s.push(x).contains(y) && y != x {
        let k = choose|k: int| 0 <= k < s.push(x).len() && s.push(x)[k] == y;
        assert(s[k] == y);
    }
}

/// Sorting keeps the values.
pub proof fn lemma_sorted_by_contains<V>(s: Seq<V>, before: spec_fn(V, V) -> bool, y: V)
    ensures
        sorted_by(s, before).contains(y) <==> s.contains(y),
    decreases s.len(),
{
    if s.len() > 0 {
        let init = s.drop_last();
        lemma_sorted_by_contains(init, before, y);
        lemma_placed_by_contains(sorted_by(init, before), s.last(), before, y);
        assert(s =~= init.push(s.last()));
        lemma_push_contains(init, s.last(), y);
    }
}

} // verus!
