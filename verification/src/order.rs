//! Sorting by a text, without disturbing the order of items whose texts are
//! equal.
use vstd::prelude::*;

use crate::text::{before, comes_before, lemma_order, lemma_order_transitive};

verus! {

/// Which end of the order comes first.
#[derive(Debug, Clone, Copy, PartialEq, Eq, Structural)]
pub enum Direction {
    Ascending,
    Descending,
}

/// An item that has a text to be sorted by.
pub trait Keyed: Sized {
    /// The text.
    spec fn key(&self) -> Seq<char>;
}

/// An item that is sorted by a text.
pub trait Sortable: Keyed {
    /// The text.
    fn key_text(&self) -> (r: &str)
        ensures
            r@ == self.key(),
    ;
}

/// Whether an item with key `a` has to stand before one with key `b`.
pub open spec fn precedes(a: Seq<char>, b: Seq<char>, dir: Direction) -> bool {
    match dir {
        Direction::Ascending => before(a, b),
        Direction::Descending => before(b, a),
    }
}

/// No item stands behind one that it has to precede.
pub open spec fn ordered<T: Keyed>(s: Seq<T>, dir: Direction) -> bool {
    forall|i: int, j: int|
        0 <= i < j < s.len() ==> !precedes((#[trigger] s[j]).key(), (#[trigger] s[i]).key(), dir)
}

/// The items whose key is `k`, in order.
pub open spec fn having<T: Keyed>(s: Seq<T>, k: Seq<char>) -> Seq<T> {
    s.filter(|x: T| x.key() == k)
}

/// `out` is `s`, put in order: for every key the same items, in the same order
/// among themselves.
pub open spec fn is_stable_sort<T: Keyed>(s: Seq<T>, out: Seq<T>, dir: Direction) -> bool {
    &&& ordered(out, dir)
    &&& forall|k: Seq<char>| having(out, k) == #[trigger] having(s, k)
}

/// `s`, with `x` put behind every item that does not have to follow it.
pub open spec fn place<T: Keyed>(s: Seq<T>, x: T, dir: Direction) -> Seq<T>
    decreases s.len(),
{
    if s.len() > 0 && precedes(x.key(), s.last().key(), dir) {
        place(s.drop_last(), x, dir).push(s.last())
    } else {
        s.push(x)
    }
}

/// `s`, put in order.
pub open spec fn sorted<T: Keyed>(s: Seq<T>, dir: Direction) -> Seq<T>
    decreases s.len(),
{
    if s.len() == 0 {
        s
    } else {
        place(sorted(s.drop_last(), dir), s.last(), dir)
    }
}

proof fn lemma_precedes(a: Seq<char>, b: Seq<char>, c: Seq<char>, dir: Direction)
    ensures
        !precedes(a, a, dir),
        !(precedes(a, b, dir) && precedes(b, a, dir)),
        a == b || precedes(a, b, dir) || precedes(b, a, dir),
        precedes(a, b, dir) && precedes(b, c, dir) ==> precedes(a, c, dir),
        precedes(a, b, dir) && !precedes(c, b, dir) ==> precedes(a, c, dir),
        !precedes(b, a, dir) && precedes(b, c, dir) ==> precedes(a, c, dir),
{
    lemma_order(a, b);
    lemma_order(b, c);
    lemma_order(a, c);
    if before(a, b) && before(b, c) {
        lemma_order_transitive(a, b, c);
    }
    if before(c, b) && before(b, a) {
        lemma_order_transitive(c, b, a);
    }
}

proof fn lemma_having_push<T: Keyed>(s: Seq<T>, x: T, k: Seq<char>)
    ensures
        having(s.push(x), k) == (if x.key() == k {
            having(s, k).push(x)
        } else {
            having(s, k)
        }),
{
    reveal(Seq::filter);
    assert(s.push(x).drop_last() =~= s);
}

proof fn lemma_place<T: Keyed>(s: Seq<T>, x: T, dir: Direction)
    requires
        ordered(s, dir),
    ensures
        ordered(place(s, x, dir), dir),
        place(s, x, dir).len() == s.len() + 1,
        forall|i: int|
            0 <= i < s.len() + 1 ==> #[trigger] place(s, x, dir)[i] == x || s.contains(
                place(s, x, dir)[i],
            ),
        forall|k: Seq<char>|
            #[trigger] having(place(s, x, dir), k) == having(s.push(x), k),
    decreases s.len(),
{
    let out = place(s, x, dir);
    if s.len() > 0 && precedes(x.key(), s.last().key(), dir) {
        let t = s.drop_last();
        let last = s.last();
        lemma_place(t, x, dir);
        let inner = place(t, x, dir);
        assert forall|i: int| 0 <= i < inner.len() implies !precedes(
            last.key(),
            (#[trigger] inner[i]).key(),
            dir,
        ) by {
            lemma_precedes(x.key(), last.key(), last.key(), dir);
            if inner[i] != x {
                let j = choose|j: int| 0 <= j < t.len() && t[j] == inner[i];
                assert(s[j] == inner[i]);
                assert(s[s.len() - 1] == last);
            }
        }
        assert forall|i: int, j: int| 0 <= i < j < out.len() implies !precedes(
            (#[trigger] out[j]).key(),
            (#[trigger] out[i]).key(),
            dir,
        ) by {
            if j < inner.len() {
                assert(out[j] == inner[j]);
            }
            assert(out[i] == inner[i]);
        }
        assert forall|i: int| 0 <= i < s.len() + 1 implies #[trigger] out[i] == x || s.contains(
            out[i],
        ) by {
            if i < inner.len() {
                assert(out[i] == inner[i]);
                if inner[i] != x {
                    let j = choose|j: int| 0 <= j < t.len() && t[j] == inner[i];
                    assert(s[j] == inner[i]);
                }
            } else {
                assert(s[s.len() - 1] == out[i]);
            }
        }
        assert forall|k: Seq<char>| #[trigger] having(out, k) == having(s.push(x), k) by {
            lemma_having_push(inner, last, k);
            lemma_having_push(t, x, k);
            lemma_having_push(t, last, k);
            lemma_having_push(s, x, k);
            assert(t.push(last) =~= s);
            lemma_precedes(x.key(), last.key(), last.key(), dir);
            assert(having(inner, k) == having(t.push(x), k));
        }
    } else {
        assert forall|i: int, j: int| 0 <= i < j < out.len() implies !precedes(
            (#[trigger] out[j]).key(),
            (#[trigger] out[i]).key(),
            dir,
        ) by {
            if j < s.len() {
                assert(out[j] == s[j] && out[i] == s[i]);
            } else {
                assert(out[i] == s[i]);
                let last = s.last();
                assert(s[s.len() - 1] == last);
                lemma_precedes(x.key(), s[i].key(), last.key(), dir);
                if i < s.len() - 1 {
                    assert(!precedes(s[s.len() - 1].key(), s[i].key(), dir));
                }
            }
        }
        assert forall|i: int| 0 <= i < s.len() + 1 implies #[trigger] out[i] == x || s.contains(
            out[i],
        ) by {
            if i < s.len() {
                assert(out[i] == s[i]);
            }
        }
    }
}

/// `sorted` puts the items in order and disturbs none that have the same key.
pub proof fn lemma_sorted<T: Keyed>(s: Seq<T>, dir: Direction)
    ensures
        is_stable_sort(s, sorted(s, dir), dir),
        sorted(s, dir).len() == s.len(),
    decreases s.len(),
{
    if s.len() > 0 {
        let t = s.drop_last();
        lemma_sorted(t, dir);
        lemma_place(sorted(t, dir), s.last(), dir);
        assert forall|k: Seq<char>| having(sorted(s, dir), k) == #[trigger] having(s, k) by {
            lemma_having_push(sorted(t, dir), s.last(), k);
            lemma_having_push(t, s.last(), k);
            assert(t.push(s.last()) =~= s);
            assert(having(sorted(t, dir), k) == having(t, k));
        }
    }
}

/// There is one way only to put the items in order without disturbing those
/// that have the same key.
pub proof fn lemma_sort_unique<T: Keyed>(s: Seq<T>, out: Seq<T>, dir: Direction)
    requires
        is_stable_sort(s, out, dir),
    ensures
        out == sorted(s, dir),
{
    lemma_sorted(s, dir);
    let other = sorted(s, dir);
    assert forall|k: Seq<char>| #[trigger] having(out, k) == having(other, k) by {
        assert(having(out, k) == having(s, k));
        assert(having(other, k) == having(s, k));
    }
    lemma_same_order(out, other, dir);
}

proof fn lemma_last_having<T: Keyed>(s: Seq<T>)
    requires
        s.len() > 0,
    ensures
        having(s, s.last().key()).len() > 0,
        having(s, s.last().key()).last() == s.last(),
{
    lemma_having_push(s.drop_last(), s.last(), s.last().key());
    assert(s.drop_last().push(s.last()) =~= s);
}

proof fn lemma_having_member<T: Keyed>(s: Seq<T>, k: Seq<char>) -> (i: int)
    requires
        having(s, k).len() > 0,
    ensures
        0 <= i < s.len(),
        s[i].key() == k,
    decreases s.len(),
{
    let t = s.drop_last();
    if s.len() > 0 {
        assert(t.push(s.last()) =~= s);
        lemma_having_push(t, s.last(), k);
    } else {
        reveal(Seq::filter);
    }
    if s.last().key() == k {
        s.len() - 1
    } else {
        lemma_having_member(t, k)
    }
}

proof fn lemma_same_order<T: Keyed>(a: Seq<T>, b: Seq<T>, dir: Direction)
    requires
        ordered(a, dir),
        ordered(b, dir),
        forall|k: Seq<char>| #[trigger] having(a, k) == having(b, k),
    ensures
        a == b,
    decreases a.len(),
{
    if a.len() == 0 {
        if b.len() > 0 {
            lemma_last_having(b);
            assert(having(a, b.last().key()).len() > 0);
            let i = lemma_having_member(a, b.last().key());
        }
        assert(a =~= b);
    } else {
        let x = a.last();
        lemma_last_having(a);
        assert(having(b, x.key()) == having(a, x.key()));
        let i = lemma_having_member(b, x.key());
        let y = b.last();
        lemma_last_having(b);
        assert(having(a, y.key()) == having(b, y.key()));
        let j = lemma_having_member(a, y.key());
        assert(a[a.len() - 1] == x);
        assert(b[b.len() - 1] == y);
        lemma_precedes(x.key(), y.key(), y.key(), dir);
        assert(x.key() == y.key()) by {
            if i < b.len() - 1 {
                assert(!precedes(b[b.len() - 1].key(), b[i].key(), dir));
            }
            if j < a.len() - 1 {
                assert(!precedes(a[a.len() - 1].key(), a[j].key(), dir));
            }
        }
        assert(x == y);
        let c = a.drop_last();
        let d = b.drop_last();
        assert(c.push(x) =~= a);
        assert(d.push(y) =~= b);
        assert forall|k: Seq<char>| #[trigger] having(c, k) == having(d, k) by {
            lemma_having_push(c, x, k);
            lemma_having_push(d, y, k);
            assert(having(a, k) == having(b, k));
            if x.key() == k {
                assert(having(c, k) =~= having(a, k).drop_last());
                assert(having(d, k) =~= having(b, k).drop_last());
            }
        }
        lemma_same_order(c, d, dir);
    }
}

proof fn lemma_having_add<T: Keyed>(a: Seq<T>, b: Seq<T>, k: Seq<char>)
    ensures
        having(a + b, k) == having(a, k) + having(b, k),
{
    Seq::filter_distributes_over_add(a, b, |x: T| x.key() == k);
}

/// Whether an item with key `a` has to stand before one with key `b`.
fn must_precede(a: &str, b: &str, dir: Direction) -> (r: bool)
    ensures
        r == precedes(a@, b@, dir),
{
    match dir {
        Direction::Ascending => comes_before(a, b),
        Direction::Descending => comes_before(b, a),
    }
}

/// No item of `s` has to stand behind one of `t`.
spec fn all_before<T: Keyed>(s: Seq<T>, t: Seq<T>, dir: Direction) -> bool {
    forall|i: int, j: int|
        0 <= i < s.len() && 0 <= j < t.len() ==> !precedes(
            (#[trigger] t[j]).key(),
            (#[trigger] s[i]).key(),
            dir,
        )
}

proof fn lemma_none_having<T: Keyed>(s: Seq<T>, k: Seq<char>)
    requires
        forall|i: int| 0 <= i < s.len() ==> (#[trigger] s[i]).key() != k,
    ensures
        having(s, k) =~= Seq::<T>::empty(),
{
    if having(s, k).len() > 0 {
        let i = lemma_having_member(s, k);
    }
}

/// Moving the last item of `left` in front of `tail` keeps the merged items.
proof fn lemma_take_left<T: Keyed>(
    left: Seq<T>,
    right: Seq<T>,
    tail: Seq<T>,
    k: Seq<char>,
    dir: Direction,
)
    requires
        left.len() > 0,
        ordered(right, dir),
        right.len() > 0 ==> precedes(right.last().key(), left.last().key(), dir),
    ensures
        having(left.drop_last() + right + (seq![left.last()] + tail), k) == having(
            left + right + tail,
            k,
        ),
{
    let x = left.last();
    let rest = left.drop_last();
    lemma_having_add(rest + right, seq![x] + tail, k);
    lemma_having_add(rest, right, k);
    lemma_having_add(seq![x], tail, k);
    lemma_having_add(left + right, tail, k);
    lemma_having_add(left, right, k);
    assert(left =~= rest + seq![x]);
    lemma_having_add(rest, seq![x], k);
    if k == x.key() {
        assert forall|i: int| 0 <= i < right.len() implies (#[trigger] right[i]).key() != k by {
            let last = right[right.len() - 1];
            lemma_precedes(last.key(), x.key(), x.key(), dir);
            if i < right.len() - 1 && right[i].key() == k {
                assert(!precedes(right[right.len() - 1].key(), right[i].key(), dir));
            }
        }
        lemma_none_having(right, k);
    } else {
        lemma_none_having(seq![x], k);
    }
    assert(having(rest, k) + having(right, k) + (having(seq![x], k) + having(tail, k)) =~= having(
        rest,
        k,
    ) + having(seq![x], k) + having(right, k) + having(tail, k));
}

/// Merges two lists that are in order. Of items with the same key, those of
/// `left` come first.
fn merge<T: Sortable>(left: Vec<T>, right: Vec<T>, dir: Direction) -> (r: Vec<T>)
    requires
        ordered(left@, dir),
        ordered(right@, dir),
    ensures
        is_stable_sort(left@ + right@, r@, dir),
{
    let ghost all = left@ + right@;
    let mut l = left;
    let mut r = right;
    let mut back: Vec<T> = Vec::new();
    let ghost mut tail = Seq::<T>::empty();
    assert(l@ + r@ + tail =~= all);
    while l.len() > 0 || r.len() > 0
        invariant
            ordered(l@, dir),
            ordered(r@, dir),
            ordered(tail, dir),
            all_before(l@, tail, dir),
            all_before(r@, tail, dir),
            back@ == tail.reverse(),
            forall|k: Seq<char>| #[trigger] having(l@ + r@ + tail, k) == having(all, k),
        decreases l@.len() + r@.len(),
    {
        let from_left: bool = if l.len() == 0 {
            false
        } else if r.len() == 0 {
            true
        } else {
            must_precede(r[r.len() - 1].key_text(), l[l.len() - 1].key_text(), dir)
        };
        let ghost l0 = l@;
        let ghost r0 = r@;
        let ghost tail0 = tail;
        let taken = if from_left {
            l.pop()
        } else {
            r.pop()
        };
        if let Some(x) = taken {
            proof {
                tail = seq![x] + tail0;
                assert(tail.reverse() =~= tail0.reverse().push(x));
                assert forall|i: int, j: int| 0 <= i < j < tail.len() implies !precedes(
                    (#[trigger] tail[j]).key(),
                    (#[trigger] tail[i]).key(),
                    dir,
                ) by {
                    assert(tail[j] == tail0[j - 1]);
                    if i > 0 {
                        assert(tail[i] == tail0[i - 1]);
                    } else if from_left {
                        assert(l0[l0.len() - 1] == x);
                    } else {
                        assert(r0[r0.len() - 1] == x);
                    }
                }
                assert(all_before(l@, tail, dir) && all_before(r@, tail, dir)) by {
                    lemma_still_before(l0, r0, l@, r@, tail0, x, from_left, dir);
                }
                assert forall|k: Seq<char>| #[trigger] having(l@ + r@ + tail, k) == having(
                    all,
                    k,
                ) by {
                    assert(having(l0 + r0 + tail0, k) == having(all, k));
                    if from_left {
                        assert(l@ =~= l0.drop_last());
                        lemma_take_left(l0, r0, tail0, k, dir);
                    } else {
                        assert(l@ + r@ + tail =~= l0 + r0 + tail0);
                    }
                }
            }
            back.push(x);
        }
    }
    let mut out: Vec<T> = Vec::new();
    assert(l@ + r@ + tail =~= tail);
    assert(tail.take(0) =~= Seq::<T>::empty());
    while back.len() > 0
        invariant
            back@.len() <= tail.len(),
            out@ == tail.take(tail.len() - back@.len()),
            back@ == tail.reverse().take(back@.len() as int),
        decreases back@.len(),
    {
        let ghost n = back@.len();
        if let Some(x) = back.pop() {
            assert(x == tail[tail.len() - n]);
            assert(back@ =~= tail.reverse().take(n - 1));
            out.push(x);
            assert(out@ =~= tail.take(tail.len() - n + 1));
        }
    }
    assert(out@ =~= tail);
    out
}

/// What is left of two lists still has to stand behind nothing in the tail
/// after the greater of their last items has moved there.
proof fn lemma_still_before<T: Keyed>(
    l0: Seq<T>,
    r0: Seq<T>,
    l: Seq<T>,
    r: Seq<T>,
    tail: Seq<T>,
    x: T,
    from_left: bool,
    dir: Direction,
)
    requires
        ordered(l0, dir),
        ordered(r0, dir),
        all_before(l0, tail, dir),
        all_before(r0, tail, dir),
        if from_left {
            &&& l0.len() > 0
            &&& x == l0.last()
            &&& l == l0.drop_last()
            &&& r == r0
            &&& r0.len() > 0 ==> precedes(r0.last().key(), x.key(), dir)
        } else {
            &&& r0.len() > 0
            &&& x == r0.last()
            &&& r == r0.drop_last()
            &&& l == l0
            &&& l0.len() > 0 ==> !precedes(x.key(), l0.last().key(), dir)
        },
    ensures
        all_before(l, seq![x] + tail, dir),
        all_before(r, seq![x] + tail, dir),
{
    let t = seq![x] + tail;
    assert forall|i: int, j: int| 0 <= i < l.len() && 0 <= j < t.len() implies !precedes(
        (#[trigger] t[j]).key(),
        (#[trigger] l[i]).key(),
        dir,
    ) by {
        assert(l[i] == l0[i]);
        if j > 0 {
            assert(t[j] == tail[j - 1]);
        } else if from_left {
            assert(x == l0[l0.len() - 1]);
        } else {
            let last = l0[l0.len() - 1];
            lemma_precedes(x.key(), l0[i].key(), last.key(), dir);
            if i < l0.len() - 1 {
                assert(!precedes(l0[l0.len() - 1].key(), l0[i].key(), dir));
            }
        }
    }
    assert forall|i: int, j: int| 0 <= i < r.len() && 0 <= j < t.len() implies !precedes(
        (#[trigger] t[j]).key(),
        (#[trigger] r[i]).key(),
        dir,
    ) by {
        assert(r[i] == r0[i]);
        if j > 0 {
            assert(t[j] == tail[j - 1]);
        } else if !from_left {
            assert(x == r0[r0.len() - 1]);
        } else {
            let last = r0[r0.len() - 1];
            lemma_precedes(x.key(), r0[i].key(), last.key(), dir);
            lemma_precedes(last.key(), x.key(), r0[i].key(), dir);
            lemma_precedes(r0[i].key(), last.key(), x.key(), dir);
            if i < r0.len() - 1 {
                assert(!precedes(r0[r0.len() - 1].key(), r0[i].key(), dir));
            }
        }
    }
}

/// Puts the items in order.
pub fn sort<T: Sortable>(items: Vec<T>, dir: Direction) -> (r: Vec<T>)
    ensures
        r@ == sorted(items@, dir),
        is_stable_sort(items@, r@, dir),
    decreases items@.len(),
{
    let ghost all = items@;
    let mut left = items;
    let n: usize = left.len();
    if n <= 1 {
        proof {
            lemma_sort_unique(all, all, dir);
        }
        return left;
    }
    let right = left.split_off(n / 2);
    let ghost a = left@;
    let ghost b = right@;
    assert(a + b =~= all);
    let left = sort(left, dir);
    let right = sort(right, dir);
    let out = merge(left, right, dir);
    proof {
        assert forall|k: Seq<char>| having(out@, k) == #[trigger] having(all, k) by {
            lemma_having_add(a, b, k);
            lemma_having_add(left@, right@, k);
            assert(having(left@ + right@, k) == having(out@, k));
            assert(having(left@, k) == having(a, k));
            assert(having(right@, k) == having(b, k));
        }
        lemma_sort_unique(all, out@, dir);
    }
    out
}

proof fn lemma_place_map<T: Keyed, V: Keyed>(s: Seq<T>, x: T, f: spec_fn(T) -> V, dir: Direction)
    requires
        forall|y: T| (#[trigger] f(y)).key() == y.key(),
    ensures
        place(s.map_values(f), f(x), dir) == place(s, x, dir).map_values(f),
    decreases s.len(),
{
    if s.len() > 0 && precedes(x.key(), s.last().key(), dir) {
        lemma_place_map(s.drop_last(), x, f, dir);
        assert(s.map_values(f).drop_last() =~= s.drop_last().map_values(f));
        assert(s.map_values(f).last() == f(s.last()));
        assert(place(s.map_values(f), f(x), dir) =~= place(s, x, dir).map_values(f));
    } else {
        if s.len() > 0 {
            assert(s.map_values(f).last() == f(s.last()));
        }
        assert(place(s.map_values(f), f(x), dir) =~= place(s, x, dir).map_values(f));
    }
}

/// Putting views in order is the view of putting the items in order.
pub proof fn lemma_sorted_map<T: Keyed, V: Keyed>(s: Seq<T>, f: spec_fn(T) -> V, dir: Direction)
    requires
        forall|y: T| (#[trigger] f(y)).key() == y.key(),
    ensures
        sorted(s.map_values(f), dir) == sorted(s, dir).map_values(f),
    decreases s.len(),
{
    if s.len() > 0 {
        lemma_sorted_map(s.drop_last(), f, dir);
        assert(s.map_values(f).drop_last() =~= s.drop_last().map_values(f));
        assert(s.map_values(f).last() == f(s.last()));
        lemma_place_map(sorted(s.drop_last(), dir), s.last(), f, dir);
    } else {
        assert(sorted(s.map_values(f), dir) =~= sorted(s, dir).map_values(f));
    }
}

proof fn lemma_place_items<T: Keyed>(s: Seq<T>, x: T, dir: Direction)
    ensures
        place(s, x, dir).to_multiset() == s.push(x).to_multiset(),
    decreases s.len(),
{
    broadcast use vstd::seq_lib::group_to_multiset_ensures;

    if s.len() > 0 && precedes(x.key(), s.last().key(), dir) {
        let t = s.drop_last();
        lemma_place_items(t, x, dir);
        assert(t.push(s.last()) =~= s);
        assert(place(s, x, dir).to_multiset() =~= s.push(x).to_multiset());
    }
}

/// Putting items in order neither adds one nor loses one.
pub proof fn lemma_sorted_items<T: Keyed>(s: Seq<T>, dir: Direction)
    ensures
        sorted(s, dir).to_multiset() == s.to_multiset(),
        forall|x: T| #[trigger] sorted(s, dir).contains(x) <==> s.contains(x),
    decreases s.len(),
{
    broadcast use vstd::seq_lib::group_to_multiset_ensures;

    if s.len() > 0 {
        let t = s.drop_last();
        lemma_sorted_items(t, dir);
        lemma_place_items(sorted(t, dir), s.last(), dir);
        assert(t.push(s.last()) =~= s);
        assert(sorted(s, dir).to_multiset() =~= s.to_multiset());
    }
    assert forall|x: T| #[trigger] sorted(s, dir).contains(x) <==> s.contains(x) by {
        assert(sorted(s, dir).contains(x) <==> sorted(s, dir).to_multiset().count(x) > 0);
        assert(s.contains(x) <==> s.to_multiset().count(x) > 0);
    }
}

} // verus!
