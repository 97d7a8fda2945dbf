//! Lists: what picking from a list, and looking something up in one, come to.
use vstd::prelude::*;

use crate::handlers::label_selector::Pair;
use crate::handlers::run_archive::last_value;

verus! {

/// Picking the items with a property and changing each is the same as doing
/// both in one go.
pub proof fn lemma_pick<A, B>(
    s: Seq<A>,
    f: spec_fn(A) -> Option<B>,
    p: spec_fn(A) -> bool,
    g: spec_fn(A) -> B,
)
    requires
        forall|x: A| #[trigger]
            f(x) == (if p(x) {
                Some(g(x))
            } else {
                None
            }),
    ensures
        s.filter_map(f) == s.filter(p).map_values(g),
    decreases s.len(),
{
    reveal(Seq::filter);
    if s.len() > 0 {
        lemma_pick(s.drop_last(), f, p, g);
        let x = s.last();
        assert(f(x) == (if p(x) {
            Some(g(x))
        } else {
            None
        }));
        assert(s.filter_map(f) =~= s.filter(p).map_values(g));
    } else {
        assert(s.filter_map(f) =~= s.filter(p).map_values(g));
    }
}

/// The pair at `i` is the last one with the key.
pub open spec fn is_last(pairs: Seq<Pair>, key: Seq<char>, i: int) -> bool {
    &&& 0 <= i < pairs.len()
    &&& pairs[i].0 == key
    &&& forall|j: int| i < j < pairs.len() ==> (#[trigger] pairs[j]).0 != key
}

/// A key that was given a value more than once has the last one; a key that was
/// never given one has none.
pub proof fn law_last_value_wins(pairs: Seq<Pair>, key: Seq<char>)
    ensures
        match last_value(pairs, key) {
            Some(value) => exists|i: int| #[trigger]
                is_last(pairs, key, i) && pairs[i].1 == value,
            None => forall|i: int| 0 <= i < pairs.len() ==> (#[trigger] pairs[i]).0 != key,
        },
        forall|i: int| #[trigger]
            is_last(pairs, key, i) ==> last_value(pairs, key) == Some(pairs[i].1),
    decreases pairs.len(),
{
    if pairs.len() > 0 {
        let front = pairs.drop_last();
        let n = pairs.len() - 1;
        law_last_value_wins(front, key);
        if pairs.last().0 == key {
            assert(is_last(pairs, key, n));
            assert forall|i: int| #[trigger] is_last(pairs, key, i) implies last_value(pairs, key)
                == Some(pairs[i].1) by {
                if i < n {
                    assert(pairs[n].0 != key);
                }
            }
        } else {
            if let Some(value) = last_value(front, key) {
                let i = choose|i: int| #[trigger] is_last(front, key, i) && front[i].1 == value;
                assert forall|j: int| i < j < pairs.len() implies (#[trigger] pairs[j]).0 != key by {
                    if j < n {
                        assert(front[j] == pairs[j]);
                    }
                }
                assert(is_last(pairs, key, i));
            } else {
                assert forall|i: int| 0 <= i < pairs.len() implies (#[trigger] pairs[i]).0
                    != key by {
                    if i < n {
                        assert(front[i] == pairs[i]);
                    }
                }
            }
            assert forall|i: int| #[trigger] is_last(pairs, key, i) implies last_value(pairs, key)
                == Some(pairs[i].1) by {
                assert(i < n);
                assert forall|j: int| i < j < front.len() implies (#[trigger] front[j]).0
                    != key by {
                    assert(front[j] == pairs[j]);
                }
                assert(is_last(front, key, i));
            }
        }
    }
}

} // verus!
