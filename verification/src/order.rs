//! The order of texts by their characters, and sorted lists without repeats.

use crate::text::{chars_of, views};
use vstd::prelude::*;

verus! {

/// Whether `a` comes before `b` in the order of strings: at the first place
/// where they differ `a` has the smaller character, or `a` ends there and `b`
/// goes on.
pub open spec fn precedes(a: Seq<char>, b: Seq<char>) -> bool
    decreases a.len(),
{
    if b.len() == 0 {
        false
    } else if a.len() == 0 {
        true
    } else if a[0] != b[0] {
        a[0] < b[0]
    } else {
        precedes(a.skip(1), b.skip(1))
    }
}

/// No text comes before itself.
pub proof fn lemma_precedes_irreflexive(a: Seq<char>)
    ensures
        !precedes(a, a),
    decreases a.len(),
{
    if a.len() > 0 {
        lemma_precedes_irreflexive(a.skip(1));
    }
}

/// The order is transitive.
pub proof fn lemma_precedes_transitive(a: Seq<char>, b: Seq<char>, c: Seq<char>)
    requires
        precedes(a, b),
        precedes(b, c),
    ensures
        precedes(a, c),
    decreases a.len(),
{
    if a.len() > 0 && a[0] == b[0] && b[0] == c[0] {
        lemma_precedes_transitive(a.skip(1), b.skip(1), c.skip(1));
    }
}

/// Of two different texts one comes before the other.
pub proof fn lemma_precedes_total(a: Seq<char>, b: Seq<char>)
    ensures
        a == b || precedes(a, b) || precedes(b, a),
    decreases a.len(),
{
    if a.len() == 0 || b.len() == 0 {
        if a.len() == 0 && b.len() == 0 {
            assert(a =~= b);
        }
    } else if a[0] != b[0] {
        assert(a[0] < b[0] || b[0] < a[0]);
    } else {
        lemma_precedes_total(a.skip(1), b.skip(1));
        if a.skip(1) == b.skip(1) {
            assert(a =~= seq![a[0]] + a.skip(1));
            assert(b =~= seq![b[0]] + b.skip(1));
        }
    }
}

/// Whether `a` comes before `b` in the order of strings.
pub fn comes_before(a: &str, b: &str) -> (r: bool)
    ensures
        r == precedes(a@, b@),
{
    let x = chars_of(a);
    let y = chars_of(b);
    let mut i: usize = 0;
    assert(x@.skip(0) =~= x@ && y@.skip(0) =~= y@);
    while i < x.len() && i < y.len()
        invariant
            i <= x.len(),
            i <= y.len(),
            x@ == a@,
            y@ == b@,
            precedes(a@, b@) == precedes(x@.skip(i as int), y@.skip(i as int)),
        decreases x.len() - i,
    {
        assert(x@.skip(i as int)[0] == x@[i as int] && y@.skip(i as int)[0] == y@[i as int]);
        if x[i] != y[i] {
            return x[i] < y[i];
        }
        assert(x@.skip(i as int).skip(1) =~= x@.skip(i + 1));
        assert(y@.skip(i as int).skip(1) =~= y@.skip(i + 1));
        i += 1;
    }
    i < y.len()
}

/// Whether each item comes before all that follow it; such a list holds
/// nothing twice.
pub open spec fn ascending(s: Seq<Seq<char>>) -> bool {
    forall|i: int, j: int| 0 <= i < j < s.len() ==> precedes(#[trigger] s[i], #[trigger] s[j])
}

/// The ascending list `s` with `x` put in its place, unless `s` holds it.
pub open spec fn inserted(s: Seq<Seq<char>>, x: Seq<char>) -> Seq<Seq<char>>
    decreases s.len(),
{
    if s.len() == 0 {
        seq![x]
    } else if s.last() == x {
        s
    } else if precedes(s.last(), x) {
        s.push(x)
    } else {
        inserted(s.drop_last(), x).push(s.last())
    }
}

/// The items of `items` in ascending order, each once.
pub open spec fn sorted_distinct(items: Seq<Seq<char>>) -> Seq<Seq<char>>
    decreases items.len(),
{
    if items.len() == 0 {
        Seq::empty()
    } else {
        inserted(sorted_distinct(items.drop_last()), items.last())
    }
}

/// Putting `x` into an ascending list leaves it ascending, and adds `x` to
/// what it holds and nothing else.
pub proof fn lemma_inserted(s: Seq<Seq<char>>, x: Seq<char>)
    requires
        ascending(s),
    ensures
        ascending(inserted(s, x)),
        forall|y: Seq<char>| #[trigger]
            inserted(s, x).contains(y) <==> (s.contains(y) || y == x),
    decreases s.len(),
{
    let r = inserted(s, x);
    if s.len() == 0 {
        assert(r[0] == x);
        assert forall|y: Seq<char>| r.contains(y) <==> (s.contains(y) || y == x) by {
            if y == x {
                assert(r[0] == y);
            }
        }
    } else if s.last() == x {
        assert(s[s.len() - 1] == x);
    } else if precedes(s.last(), x) {
        assert forall|i: int, j: int| 0 <= i < j < r.len() implies precedes(
            #[trigger] r[i],
            #[trigger] r[j],
        ) by {
            if j == s.len() && i < s.len() - 1 {
                assert(precedes(s[i], s[s.len() - 1]));
                lemma_precedes_transitive(s[i], s.last(), x);
            }
        }
        assert forall|y: Seq<char>| r.contains(y) <==> (s.contains(y) || y == x) by {
            if r.contains(y) {
                let k = choose|k: int| 0 <= k < r.len() && r[k] == y;
                if k < s.len() {
                    assert(s[k] == y);
                }
            }
            if s.contains(y) {
                let k = choose|k: int| 0 <= k < s.len() && s[k] == y;
                assert(r[k] == y);
            }
            if y == x {
                assert(r[s.len() as int] == y);
            }
        }
    } else {
        let front = s.drop_last();
        let last = s.last();
        assert forall|i: int, j: int| 0 <= i < j < front.len() implies precedes(
            #[trigger] front[i],
            #[trigger] front[j],
        ) by {
            assert(precedes(s[i], s[j]));
        }
        lemma_inserted(front, x);
        lemma_precedes_total(last, x);
        let mid = inserted(front, x);
        assert(r == mid.push(last));
        assert forall|i: int, j: int| 0 <= i < j < r.len() implies precedes(
            #[trigger] r[i],
            #[trigger] r[j],
        ) by {
            if j == mid.len() {
                assert(mid.contains(mid[i]));
                if mid[i] != x {
                    assert(front.contains(mid[i]));
                    let k = choose|k: int| 0 <= k < front.len() && front[k] == mid[i];
                    assert(precedes(s[k], s[s.len() - 1]));
                }
            } else {
                assert(precedes(mid[i], mid[j]));
            }
        }
        assert forall|y: Seq<char>| r.contains(y) <==> (s.contains(y) || y == x) by {
            if r.contains(y) {
                let k = choose|k: int| 0 <= k < r.len() && r[k] == y;
                if k < mid.len() {
                    assert(mid.contains(mid[k]));
                    if y != x {
                        assert(front.contains(y));
                        let m = choose|m: int| 0 <= m < front.len() && front[m] == y;
                        assert(s[m] == y);
                    }
                } else {
                    assert(s[s.len() - 1] == y);
                }
            }
            if s.contains(y) {
                let k = choose|k: int| 0 <= k < s.len() && s[k] == y;
                if k < front.len() {
                    assert(front[k] == y);
                    assert(front.contains(y));
                    assert(mid.contains(y));
                    let m = choose|m: int| 0 <= m < mid.len() && mid[m] == y;
                    assert(r[m] == y);
                } else {
                    assert(r[mid.len() as int] == y);
                }
            }
            if y == x {
                assert(mid.contains(x));
                let m = choose|m: int| 0 <= m < mid.len() && mid[m] == x;
                assert(r[m] == y);
            }
        }
    }
}

/// A sorted list is ascending and holds exactly the items it was made from.
pub proof fn lemma_sorted_distinct(items: Seq<Seq<char>>)
    ensures
        ascending(sorted_distinct(items)),
        forall|y: Seq<char>| #[trigger]
            sorted_distinct(items).contains(y) <==> items.contains(y),
    decreases items.len(),
{
    if items.len() > 0 {
        let front = items.drop_last();
        lemma_sorted_distinct(front);
        lemma_inserted(sorted_distinct(front), items.last());
        assert forall|y: Seq<char>| sorted_distinct(items).contains(y) <==> items.contains(
            y,
        ) by {
            if items.contains(y) {
                let k = choose|k: int| 0 <= k < items.len() && items[k] == y;
                if k < front.len() {
                    assert(front[k] == y);
                }
            }
            if front.contains(y) {
                let k = choose|k: int| 0 <= k < front.len() && front[k] == y;
                assert(items[k] == y);
            }
            if y == items.last() {
                assert(items[items.len() - 1] == y);
            }
        }
    }
}

/// Two ascending lists that hold the same items are the same list.
pub proof fn lemma_ascending_unique(a: Seq<Seq<char>>, b: Seq<Seq<char>>)
    requires
        ascending(a),
        ascending(b),
        forall|y: Seq<char>| a.contains(y) <==> b.contains(y),
    ensures
        a == b,
    decreases a.len(),
{
    if a.len() == 0 {
        if b.len() > 0 {
            assert(b.contains(b[0]));
        }
        assert(a =~= b);
    } else if b.len() == 0 {
        assert(a.contains(a[0]));
    } else {
        // the last item of each is the greatest of both
        let x = a.last();
        let y = b.last();
        assert(a.contains(a[a.len() - 1]));
        assert(b.contains(b[b.len() - 1]));
        let i = choose|i: int| 0 <= i < b.len() && b[i] == x;
        let j = choose|j: int| 0 <= j < a.len() && a[j] == y;
        if x != y {
            assert(precedes(b[i], b[b.len() - 1]));
            assert(precedes(a[j], a[a.len() - 1]));
            lemma_precedes_transitive(x, y, x);
            lemma_precedes_irreflexive(x);
        }
        let fa = a.drop_last();
        let fb = b.drop_last();
        assert forall|z: Seq<char>| fa.contains(z) <==> fb.contains(z) by {
            if fa.contains(z) {
                let k = choose|k: int| 0 <= k < fa.len() && fa[k] == z;
                assert(precedes(a[k], a[a.len() - 1]));
                assert(a.contains(a[k]));
                let m = choose|m: int| 0 <= m < b.len() && b[m] == z;
                if m == b.len() - 1 {
                    lemma_precedes_irreflexive(x);
                }
                assert(fb[m] == z);
            }
            if fb.contains(z) {
                let k = choose|k: int| 0 <= k < fb.len() && fb[k] == z;
                assert(precedes(b[k], b[b.len() - 1]));
                assert(b.contains(b[k]));
                let m = choose|m: int| 0 <= m < a.len() && a[m] == z;
                if m == a.len() - 1 {
                    lemma_precedes_irreflexive(y);
                }
                assert(fa[m] == z);
            }
        }
        assert(ascending(fa)) by {
            assert forall|p: int, q: int| 0 <= p < q < fa.len() implies precedes(
                #[trigger] fa[p],
                #[trigger] fa[q],
            ) by {
                assert(precedes(a[p], a[q]));
            }
        }
        assert(ascending(fb)) by {
            assert forall|p: int, q: int| 0 <= p < q < fb.len() implies precedes(
                #[trigger] fb[p],
                #[trigger] fb[q],
            ) by {
                assert(precedes(b[p], b[q]));
            }
        }
        lemma_ascending_unique(fa, fb);
        assert(a =~= fa.push(x));
        assert(b =~= fb.push(y));
    }
}

/// The order of a sorted list does not depend on the order or the number of
/// times in which the items were given.
pub proof fn lemma_sorted_distinct_by_content(a: Seq<Seq<char>>, b: Seq<Seq<char>>)
    requires
        forall|y: Seq<char>| a.contains(y) <==> b.contains(y),
    ensures
        sorted_distinct(a) == sorted_distinct(b),
{
    lemma_sorted_distinct(a);
    lemma_sorted_distinct(b);
    assert forall|y: Seq<char>| sorted_distinct(a).contains(y) <==> sorted_distinct(b).contains(
        y,
    ) by {
        assert(sorted_distinct(a).contains(y) <==> a.contains(y));
        assert(sorted_distinct(b).contains(y) <==> b.contains(y));
    }
    lemma_ascending_unique(sorted_distinct(a), sorted_distinct(b));
}

proof fn lemma_inserted_behind(s: Seq<Seq<char>>, x: Seq<char>, i: int)
    requires
        0 < i <= s.len(),
        s[i - 1] != x,
        !precedes(s[i - 1], x),
    ensures
        inserted(s.take(i), x) + s.skip(i) == inserted(s.take(i - 1), x) + s.skip(i - 1),
{
    assert(s.take(i).drop_last() =~= s.take(i - 1));
    assert(inserted(s.take(i - 1), x).push(s[i - 1]) + s.skip(i) =~= inserted(s.take(i - 1), x)
        + s.skip(i - 1));
}

/// Puts `x` in its place in the ascending list `list`, unless the list holds
/// it.
pub fn insert_sorted(list: &mut Vec<String>, x: &str)
    ensures
        views(final(list)@) == inserted(views(old(list)@), x@),
{
    let ghost s = views(list@);
    let mut i: usize = list.len();
    assert(s.take(i as int) =~= s && s.skip(i as int) =~= Seq::<Seq<char>>::empty());
    while i > 0
        invariant
            i <= list.len(),
            list == old(list),
            s == views(list@),
            inserted(s, x@) == inserted(s.take(i as int), x@) + s.skip(i as int),
        ensures
            i <= list.len(),
            list == old(list),
            s == views(list@),
            inserted(s, x@) == inserted(s.take(i as int), x@) + s.skip(i as int),
            i == 0 || (s[i - 1] != x@ && precedes(s[i - 1], x@)),
        decreases i,
    {
        assert(s.take(i as int).last() == list@[i - 1]@);
        let here = list[i - 1].as_str();
        if crate::text::same_text(here, x) {
            assert(s.take(i as int) + s.skip(i as int) =~= s);
            return ;
        }
        if comes_before(here, x) {
            break ;
        }
        proof {
            lemma_inserted_behind(s, x@, i as int);
        }
        i -= 1;
    }
    let ghost before = list@;
    list.insert(i, x.to_owned());
    proof {
        let r = views(list@);
        if i == 0 {
            assert(s.take(0) =~= Seq::<Seq<char>>::empty());
            assert(r =~= seq![x@] + s.skip(0));
        } else {
            assert(s.take(i as int).last() == before[i - 1]@);
            assert(r =~= s.take(i as int).push(x@) + s.skip(i as int));
        }
    }
}

/// The items of `items` in ascending order, each once.
pub fn sort_distinct(items: &Vec<String>) -> (r: Vec<String>)
    ensures
        views(r@) == sorted_distinct(views(items@)),
{
    let mut r: Vec<String> = Vec::new();
    let mut i: usize = 0;
    assert(views(r@) =~= Seq::<Seq<char>>::empty());
    assert(views(items@.take(0)) =~= Seq::<Seq<char>>::empty());
    while i < items.len()
        invariant
            i <= items.len(),
            views(r@) == sorted_distinct(views(items@.take(i as int))),
        decreases items.len() - i,
    {
        insert_sorted(&mut r, items[i].as_str());
        i += 1;
        assert(views(items@.take(i as int)).drop_last() =~= views(items@.take(i - 1)));
    }
    assert(items@.take(items.len() as int) =~= items@);
    r
}

} // verus!
