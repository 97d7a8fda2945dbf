//! Strings and sorting.
use vstd::prelude::*;
use vstd::string::*;
use vstd::utf8::*;

use crate::order::{having, lemma_sorted_items, ordered, sort, Direction, Keyed, Sortable};
use crate::text::{
    before, bytes_before, cat, cat3, char_index, comes_before, decimal, decimal_of, digits_value,
    is_white_space, join, join_of, lemma_char_index, lemma_split_pieces, lemma_trim_start_gap,
    split, split_of, strip, stripped, texts, trim, trim_end_of, trim_of, trim_start, trim_start_of,
    u16_of, white_space,
};

verus! {

/// White space is what Unicode gives the property `White_Space`: the five
/// controls from tab to carriage return, the space, and eighteen further
/// characters.
pub proof fn law_white_space(c: char, r: bool)
    requires
        call_ensures(white_space, (c,), r),
    ensures
        r == is_white_space(c),
        r <==> (9 <= c as u32 <= 13 || 0x2000 <= c as u32 <= 0x200a || seq![
            0x20u32,
            0x85u32,
            0xa0u32,
            0x1680u32,
            0x2028u32,
            0x2029u32,
            0x202fu32,
            0x205fu32,
            0x3000u32,
        ].contains(c as u32)),
{
    let rest = seq![
        0x20u32,
        0x85u32,
        0xa0u32,
        0x1680u32,
        0x2028u32,
        0x2029u32,
        0x202fu32,
        0x205fu32,
        0x3000u32,
    ];
    assert(rest[0] == 0x20 && rest[1] == 0x85 && rest[2] == 0xa0 && rest[3] == 0x1680 && rest[4]
        == 0x2028 && rest[5] == 0x2029 && rest[6] == 0x202f && rest[7] == 0x205f && rest[8]
        == 0x3000);
}

/// The white space that trimming cuts off at the end is all of it, and nothing
/// else.
proof fn lemma_trim_end_gap(s: Seq<char>)
    ensures
        trim_end_of(s).len() <= s.len(),
        trim_end_of(s) == s.take(trim_end_of(s).len() as int),
        forall|k: int| trim_end_of(s).len() <= k < s.len() ==> is_white_space(#[trigger] s[k]),
        trim_end_of(s).len() > 0 ==> !is_white_space(trim_end_of(s).last()),
    decreases s.len(),
{
    if s.len() > 0 && is_white_space(s.last()) {
        let t = s.drop_last();
        lemma_trim_end_gap(t);
        assert(trim_end_of(s) =~= s.take(trim_end_of(s).len() as int));
        assert forall|k: int| trim_end_of(s).len() <= k < s.len() implies is_white_space(
            #[trigger] s[k],
        ) by {
            if k < t.len() {
                assert(t[k] == s[k]);
            }
        }
    } else {
        assert(s.take(s.len() as int) =~= s);
    }
}

/// `t` is `s` without the white space at either end: it is a stretch of `s`,
/// only white space stands around it, and none at its own ends.
pub open spec fn is_trim(s: Seq<char>, t: Seq<char>, from: int) -> bool {
    &&& 0 <= from <= s.len() - t.len()
    &&& t == s.subrange(from, from + t.len())
    &&& forall|k: int|
        0 <= k < s.len() && !(from <= k < from + t.len()) ==> is_white_space(#[trigger] s[k])
    &&& t.len() > 0 ==> !is_white_space(t[0]) && !is_white_space(t.last())
}

/// Where the trimmed text stands in `s`.
pub proof fn lemma_trim_gap(s: Seq<char>) -> (from: int)
    ensures
        is_trim(s, trim_of(s), from),
{
    let a = trim_start_of(s);
    lemma_trim_start_gap(s);
    lemma_trim_end_gap(a);
    let from = s.len() - a.len();
    let t = trim_of(s);
    assert(t =~= s.subrange(from, from + t.len()));
    assert forall|k: int| 0 <= k < s.len() && !(from <= k < from + t.len()) implies is_white_space(
        #[trigger] s[k],
    ) by {
        if k >= from {
            assert(a[k - from] == s[k]);
        }
    }
    if t.len() > 0 {
        assert(t[0] == a[0]);
    }
    from
}

/// Trimming cuts off the white space at both ends, all of it, and nothing else.
pub proof fn law_trim(s: &str, r: &str)
    requires
        call_ensures(trim, (s,), r),
    ensures
        exists|from: int| is_trim(s@, r@, from),
{
    let from = lemma_trim_gap(s@);
    assert(is_trim(s@, r@, from));
}

/// Trimming the start cuts off the white space there, all of it, and nothing
/// else.
pub proof fn law_trim_start(s: &str, r: &str)
    requires
        call_ensures(trim_start, (s,), r),
    ensures
        r@.len() <= s@.len(),
        r@ == s@.skip(s@.len() - r@.len()),
        forall|k: int| 0 <= k < s@.len() - r@.len() ==> is_white_space(#[trigger] s@[k]),
        r@.len() > 0 ==> !is_white_space(r@[0]),
{
    lemma_trim_start_gap(s@);
}

proof fn lemma_join_split(s: Seq<char>, sep: char)
    ensures
        join_of(split_of(s, sep), seq![sep]) == s,
    decreases s.len(),
{
    lemma_char_index(s, sep);
    let i = char_index(s, sep);
    let parts = split_of(s, sep);
    if i < s.len() {
        let rest = s.skip(i + 1);
        lemma_join_split(rest, sep);
        lemma_split_pieces(rest, sep);
        assert(parts.drop_first() =~= split_of(rest, sep));
        assert(parts[0] == s.take(i));
        assert(s =~= s.take(i) + seq![sep] + rest);
    }
}

/// The pieces of a text hold no separator, and joined by it they are the text
/// again.
pub proof fn law_split(s: &str, sep: char, r: Vec<String>)
    requires
        call_ensures(split, (s, sep), r),
    ensures
        r@.len() > 0,
        forall|k: int| 0 <= k < r@.len() ==> !(#[trigger] r@[k])@.contains(sep),
        join_of(texts(r@), seq![sep]) == s@,
{
    lemma_split_pieces(s@, sep);
    lemma_join_split(s@, sep);
    assert forall|k: int| 0 <= k < r@.len() implies !(#[trigger] r@[k])@.contains(sep) by {
        assert(texts(r@)[k] == r@[k]@);
    }
    assert(texts(r@).len() == r@.len());
}

/// Joining puts the separator between each two parts: a further part comes
/// behind a separator, unless it is the first.
pub proof fn law_join(parts: Seq<Seq<char>>, more: Seq<char>, sep: Seq<char>)
    ensures
        join_of(Seq::empty(), sep) == Seq::<char>::empty(),
        join_of(parts.push(more), sep) == (if parts.len() == 0 {
            more
        } else {
            join_of(parts, sep) + sep + more
        }),
    decreases parts.len(),
{
    let all = parts.push(more);
    if parts.len() == 0 {
        assert(all =~= seq![more]);
    } else {
        let rest = parts.drop_first();
        law_join(rest, more, sep);
        assert(all.drop_first() =~= rest.push(more));
        if parts.len() == 1 {
            assert(rest.push(more) =~= seq![more]);
        } else {
            assert(join_of(all, sep) =~= join_of(parts, sep) + sep + more);
        }
    }
}

/// What `join` writes is its parts with the separator between them.
pub proof fn law_join_writes(parts: &Vec<String>, sep: &str, r: String)
    requires
        call_ensures(join, (parts, sep), r),
    ensures
        parts@.len() == 0 ==> r@.len() == 0,
        parts@.len() == 1 ==> r@ == parts@[0]@,
        parts@.len() > 1 ==> r@ == join_of(texts(parts@).drop_last(), sep@) + sep@
            + parts@.last()@,
{
    let all = texts(parts@);
    if all.len() > 0 {
        law_join(all.drop_last(), all.last(), sep@);
        assert(all.drop_last().push(all.last()) =~= all);
    }
}

/// A prefix is stripped as often as it stands there, and nothing else is.
pub proof fn lemma_stripped(s: Seq<char>, prefix: Seq<char>) -> (times: nat)
    requires
        prefix.len() > 0,
    ensures
        s.len() == times * prefix.len() + stripped(s, prefix).len(),
        stripped(s, prefix) == s.skip((times * prefix.len()) as int),
        !prefix.is_prefix_of(stripped(s, prefix)),
        forall|i: int|
            #![trigger s[i]]
            0 <= i < times * prefix.len() ==> s[i] == prefix[i % (prefix.len() as int)],
    decreases s.len(),
{
    let n = prefix.len();
    if prefix.is_prefix_of(s) {
        let rest = s.skip(n as int);
        let k = lemma_stripped(rest, prefix);
        assert((k + 1) * n == k * n + n) by (nonlinear_arith);
        assert(stripped(s, prefix) =~= s.skip(((k + 1) * n) as int));
        assert forall|i: int| #![trigger s[i]] 0 <= i < (k + 1) * n implies s[i] == prefix[i % (
        n as int)] by {
            if i < n {
                assert(s.take(n as int)[i] == prefix[i]);
                vstd::arithmetic::div_mod::lemma_small_mod(i as nat, n);
            } else {
                assert(rest[i - n] == s[i]);
                vstd::arithmetic::div_mod::lemma_mod_sub_multiples_vanish(i, n as int);
            }
        }
        k + 1
    } else {
        assert(0 * n == 0) by (nonlinear_arith);
        assert(s.skip(0) =~= s);
        0
    }
}

/// Stripping takes the prefix away as often as it stands in front, and nothing
/// else.
pub proof fn law_strip(s: &str, prefix: &str, r: &str)
    requires
        call_ensures(strip, (s, prefix), r),
        prefix@.len() > 0,
    ensures
        !prefix@.is_prefix_of(r@),
        exists|times: nat|
            s@.len() == #[trigger] (times * prefix@.len()) + r@.len() && r@ == s@.skip(
                (times * prefix@.len()) as int,
            ) && (forall|i: int|
                #![trigger s@[i]]
                0 <= i < times * prefix@.len() ==> s@[i] == prefix@[i % (prefix@.len() as int)]),
{
    let times = lemma_stripped(s@, prefix@);
    assert(s@.len() == times * prefix@.len() + r@.len());
}

/// Putting strings together keeps all of them, in order.
pub proof fn law_cat(a: &str, b: &str, c: &str, two: String, three: String)
    requires
        call_ensures(cat, (a, b), two),
        call_ensures(cat3, (a, b, c), three),
    ensures
        two@.len() == a@.len() + b@.len(),
        two@.take(a@.len() as int) == a@,
        two@.skip(a@.len() as int) == b@,
        three@.take(two@.len() as int) == two@,
        three@.skip(two@.len() as int) == c@,
{
    assert(two@.take(a@.len() as int) =~= a@);
    assert(two@.skip(a@.len() as int) =~= b@);
    assert(three@.take(two@.len() as int) =~= two@);
    assert(three@.skip(two@.len() as int) =~= c@);
}

proof fn lemma_decimal(n: nat)
    ensures
        decimal_of(n).len() > 0,
        digits_value(decimal_of(n)) == Some(n),
        decimal_of(n)[0] == '0' ==> n == 0 && decimal_of(n).len() == 1,
        forall|i: int| 0 <= i < decimal_of(n).len() ==> '0' <= #[trigger] decimal_of(n)[i] <= '9',
    decreases n,
{
    reveal_with_fuel(digits_value, 3);
    let s = decimal_of(n);
    if n < 10 {
        assert(s.drop_last() =~= Seq::<char>::empty());
    } else {
        lemma_decimal(n / 10);
        assert(s.drop_last() =~= decimal_of(n / 10));
        assert(s[0] == decimal_of(n / 10)[0]);
    }
}

/// A number is written in decimal digits without leading zeros, and reads back
/// as itself; one that fits is read back by `parse_u16`.
pub proof fn law_decimal(n: u128, r: String)
    requires
        call_ensures(decimal, (n,), r),
    ensures
        r@.len() > 0,
        forall|i: int| 0 <= i < r@.len() ==> '0' <= #[trigger] r@[i] <= '9',
        r@[0] == '0' ==> n == 0 && r@.len() == 1,
        digits_value(r@) == Some(n as nat),
        u16_of(r@) == (if n <= u16::MAX {
            Some(n as u16)
        } else {
            None
        }),
{
    lemma_decimal(n as nat);
}

/// Two numbers that are written alike are the same.
pub proof fn law_decimal_differs(m: nat, n: nat)
    ensures
        decimal_of(m) == decimal_of(n) ==> m == n,
{
    lemma_decimal(m);
    lemma_decimal(n);
}

/// The first byte that differs decides; and a text comes before what it begins.
pub proof fn lemma_first_difference(a: Seq<u8>, b: Seq<u8>)
    ensures
        bytes_before(a, b) <==> exists|i: int|
            #![trigger a.take(i)]
            0 <= i <= a.len() && i < b.len() && a.take(i) == b.take(i) && (i == a.len() || a[i]
                < b[i]),
    decreases a.len(),
{
    if b.len() > 0 && a.len() > 0 {
        let c = a.drop_first();
        let d = b.drop_first();
        lemma_first_difference(c, d);
        if bytes_before(a, b) {
            if a[0] < b[0] {
                assert(a.take(0) =~= b.take(0));
            } else {
                let i = choose|i: int|
                    #![trigger c.take(i)]
                    0 <= i <= c.len() && i < d.len() && c.take(i) == d.take(i) && (i == c.len()
                        || c[i] < d[i]);
                assert(a.take(i + 1) =~= seq![a[0]] + c.take(i));
                assert(b.take(i + 1) =~= seq![b[0]] + d.take(i));
                assert(a.take(i + 1) == b.take(i + 1));
            }
        }
        if exists|i: int|
            #![trigger a.take(i)]
            0 <= i <= a.len() && i < b.len() && a.take(i) == b.take(i) && (i == a.len() || a[i]
                < b[i]) {
            let i = choose|i: int|
                #![trigger a.take(i)]
                0 <= i <= a.len() && i < b.len() && a.take(i) == b.take(i) && (i == a.len() || a[i]
                    < b[i]);
            if i > 0 {
                assert(a.take(i)[0] == a[0]);
                assert(b.take(i)[0] == b[0]);
                assert(c.take(i - 1) =~= a.take(i).drop_first());
                assert(d.take(i - 1) =~= b.take(i).drop_first());
                assert(c.take(i - 1) == d.take(i - 1));
                assert(i == a.len() || c[i - 1] < d[i - 1]);
            }
        }
    } else if b.len() > 0 {
        assert(a.take(0) =~= b.take(0));
    }
}

/// Strings are ordered by their bytes: the first byte that differs decides, and
/// a string comes before what it begins.
pub proof fn law_order_of_strings(a: &str, b: &str, r: bool)
    requires
        call_ensures(comes_before, (a, b), r),
    ensures
        r <==> exists|i: int|
            #![trigger encode_utf8(a@).take(i)]
            0 <= i <= encode_utf8(a@).len() && i < encode_utf8(b@).len() && encode_utf8(a@).take(i)
                == encode_utf8(b@).take(i) && (i == encode_utf8(a@).len() || encode_utf8(a@)[i]
                < encode_utf8(b@)[i]),
{
    lemma_first_difference(encode_utf8(a@), encode_utf8(b@));
}

/// The items with a text are those whose text it is, in order.
pub proof fn law_having<T: Keyed>(s: Seq<T>, x: T, key: Seq<char>)
    ensures
        having(Seq::<T>::empty(), key).len() == 0,
        having(s.push(x), key) == (if x.key() == key {
            having(s, key).push(x)
        } else {
            having(s, key)
        }),
{
    reveal(Seq::filter);
    assert(s.push(x).drop_last() =~= s);
}

/// `sort` puts no item behind one that it has to precede: with ascending order
/// one whose text comes before, with descending order one whose text comes
/// after. Items with the same text keep their order, and none is added or lost.
pub proof fn law_sort<T: Sortable>(items: Vec<T>, dir: Direction, key: Seq<char>, r: Vec<T>)
    requires
        call_ensures(sort::<T>, (items, dir), r),
    ensures
        r@.to_multiset() == items@.to_multiset(),
        forall|i: int, j: int|
            0 <= i < j < r@.len() ==> match dir {
                Direction::Ascending => !before((#[trigger] r@[j]).key(), (#[trigger] r@[i]).key()),
                Direction::Descending => !before(r@[i].key(), r@[j].key()),
            },
        having(r@, key) == having(items@, key),
{
    lemma_sorted_items(items@, dir);
    assert(ordered(r@, dir));
    assert(having(r@, key) == having(items@, key));
}

} // verus!
