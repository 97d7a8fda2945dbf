//! The `labels` query parameter: comma-separated `key=value` pairs, such as
//! `ginger-gitter/branch=main,tekton.dev/pipeline=my-pipeline`.
//!
//! A key may carry a `/`-delimited prefix, so nothing is split at `/`. A pair
//! is split at its first `=` only: a key cannot contain one, and any further
//! `=` stays in the value.
use vstd::prelude::*;
use vstd::string::*;

use crate::text::{
    cat3, char_index, char_vec, find_char, is_char_index, is_trimmed, join, join_of,
    lemma_char_index, lemma_split_join, lemma_split_pieces, lemma_trim, split, split_of, texts, trim,
    trim_of,
};

verus! {

/// A segment of the parameter that is no `key=value` pair.
#[derive(Debug)]
pub struct LabelSelectorError {
    pub bad_pair: String,
}

impl LabelSelectorError {
    /// What a client is told.
    pub fn message(&self) -> (r: String)
        ensures
            r@ == "invalid label selector segment '"@ + self.bad_pair@ + "', expected key=value"@,
    {
        cat3("invalid label selector segment '", self.bad_pair.as_str(), "', expected key=value")
    }
}

/// A label's key and value.
pub type Pair = (Seq<char>, Seq<char>);

/// The view of a label's key and value.
pub open spec fn pair_view(p: (String, String)) -> Pair {
    (p.0@, p.1@)
}

/// The views of a list of labels.
pub open spec fn pair_views(v: Seq<(String, String)>) -> Seq<Pair> {
    v.map_values(|p: (String, String)| pair_view(p))
}

/// The pair that a segment writes: what stands before its first `=`, which
/// must not be empty, and what stands after it.
pub open spec fn pair_of(segment: Seq<char>) -> Option<Pair> {
    let i = char_index(segment, '=');
    if 0 < i < segment.len() {
        Some((segment.take(i), segment.skip(i + 1)))
    } else {
        None
    }
}

/// A piece between commas, without surrounding white space, unless nothing is
/// left of it.
pub open spec fn segment_of(piece: Seq<char>) -> Option<Seq<char>> {
    let t = trim_of(piece);
    if t.len() == 0 {
        None
    } else {
        Some(t)
    }
}

/// The segments of the parameter: empty ones, such as the one behind a
/// trailing comma, are left out.
pub open spec fn segments_of(raw: Seq<char>) -> Seq<Seq<char>> {
    split_of(raw, ',').filter_map(|p: Seq<char>| segment_of(p))
}

/// The pairs that the segments write, or the first segment that is no pair.
pub open spec fn pairs_of(segments: Seq<Seq<char>>) -> Result<Seq<Pair>, Seq<char>>
    decreases segments.len(),
{
    if segments.len() == 0 {
        Ok(Seq::empty())
    } else {
        match pairs_of(segments.drop_last()) {
            Err(bad) => Err(bad),
            Ok(pairs) => match pair_of(segments.last()) {
                None => Err(segments.last()),
                Some(p) => Ok(pairs.push(p)),
            },
        }
    }
}

/// The view of the result of `parse_label_selector`.
pub open spec fn parse_view(
    r: Result<Vec<(String, String)>, LabelSelectorError>,
) -> Result<Seq<Pair>, Seq<char>> {
    match r {
        Ok(v) => Ok(pair_views(v@)),
        Err(e) => Err(e.bad_pair@),
    }
}

/// Reads `k1=v1,k2=v2` as `[(k1, v1), (k2, v2)]`. Empty segments are skipped;
/// the first segment that is no pair is the error.
pub fn parse_label_selector(raw: &str) -> (r: Result<Vec<(String, String)>, LabelSelectorError>)
    ensures
        parse_view(r) == pairs_of(segments_of(raw@)),
{
    let pieces = split(raw, ',');
    let ghost all = split_of(raw@, ',');
    let ghost f = |p: Seq<char>| segment_of(p);
    let mut pairs: Vec<(String, String)> = Vec::new();
    let mut i: usize = 0;
    assert(all.take(0).filter_map(f) =~= Seq::<Seq<char>>::empty());
    assert(pair_views(pairs@) =~= Seq::<Pair>::empty());
    while i < pieces.len()
        invariant
            all == split_of(raw@, ','),
            texts(pieces@) == all,
            f == (|p: Seq<char>| segment_of(p)),
            i <= pieces@.len(),
            pairs_of(all.take(i as int).filter_map(f)) == Ok::<Seq<Pair>, Seq<char>>(
                pair_views(pairs@),
            ),
        decreases pieces@.len() - i,
    {
        let ghost done = all.take(i as int).filter_map(f);
        assert(all[i as int] == pieces@[i as int]@);
        proof {
            all.lemma_filter_map_take_succ(f, i as int);
        }
        let segment = trim(pieces[i].as_str());
        if !segment.is_empty() {
            let ghost now = all.take(i + 1).filter_map(f);
            assert(now =~= done.push(segment@));
            assert(now.drop_last() =~= done);
            let chars = char_vec(segment);
            assert(segment@.skip(0) =~= segment@);
            let eq: usize = find_char(&chars, '=', 0);
            if eq == 0 || eq == chars.len() {
                proof {
                    lemma_first_error(all, f, i + 1, segment@);
                }
                return Err(LabelSelectorError { bad_pair: segment.to_owned() });
            }
            let key = segment.substring_char(0, eq);
            let value = segment.substring_char(eq + 1, chars.len());
            assert(key@ =~= segment@.take(eq as int));
            assert(value@ =~= segment@.skip(eq + 1));
            let ghost before = pair_views(pairs@);
            pairs.push((key.to_owned(), value.to_owned()));
            assert(pair_views(pairs@) =~= before.push((key@, value@)));
        } else {
            assert(all.take(i + 1).filter_map(f) =~= done);
        }
        i = i + 1;
    }
    assert(all.take(all.len() as int) =~= all);
    Ok(pairs)
}

/// An error found in the first `n` pieces is the error of all of them.
proof fn lemma_first_error(
    all: Seq<Seq<char>>,
    f: spec_fn(Seq<char>) -> Option<Seq<char>>,
    n: int,
    bad: Seq<char>,
)
    requires
        0 <= n <= all.len(),
        pairs_of(all.take(n).filter_map(f)) == Err::<Seq<Pair>, Seq<char>>(bad),
    ensures
        pairs_of(all.filter_map(f)) == Err::<Seq<Pair>, Seq<char>>(bad),
    decreases all.len() - n,
{
    if n < all.len() {
        all.lemma_filter_map_take_succ(f, n);
        let now = all.take(n + 1).filter_map(f);
        if f(all[n]) is Some {
            assert(now.drop_last() =~= all.take(n).filter_map(f));
        } else {
            assert(now =~= all.take(n).filter_map(f));
        }
        lemma_first_error(all, f, n + 1, bad);
    } else {
        assert(all.take(n) =~= all);
    }
}

/// The text of one pair.
pub open spec fn pair_text(p: Pair) -> Seq<char> {
    p.0 + "="@ + p.1
}

/// The texts of the pairs, separated by commas.
pub open spec fn selector_text(pairs: Seq<Pair>) -> Seq<char> {
    join_of(pairs.map_values(|p: Pair| pair_text(p)), ","@)
}

/// Writes the pairs as a label selector, `k1=v1,k2=v2`.
pub fn to_k8s_selector(pairs: &[(String, String)]) -> (r: String)
    ensures
        r@ == selector_text(pair_views(pairs@)),
{
    let mut parts: Vec<String> = Vec::new();
    let mut i: usize = 0;
    while i < pairs.len()
        invariant
            i <= pairs@.len(),
            parts@.len() == i,
            forall|j: int| 0 <= j < i ==> (#[trigger] parts@[j])@ == pair_text(pair_view(pairs@[j])),
        decreases pairs@.len() - i,
    {
        parts.push(cat3(pairs[i].0.as_str(), "=", pairs[i].1.as_str()));
        i = i + 1;
    }
    assert(texts(parts@) =~= pair_views(pairs@).map_values(|p: Pair| pair_text(p)));
    join(&parts, ",")
}

/// A pair that a selector can carry: the key is not empty and holds no `=`,
/// neither side holds a comma, and the pair's text has no white space at
/// either end.
pub open spec fn is_writable(p: Pair) -> bool {
    &&& p.0.len() > 0
    &&& !p.0.contains('=')
    &&& !p.0.contains(',')
    &&& !p.1.contains(',')
    &&& is_trimmed(pair_text(p))
}

/// Reading what was written gives the pairs back, for every list of pairs
/// that a selector can carry.
pub proof fn law_read_after_write(pairs: Seq<Pair>)
    requires
        forall|i: int| 0 <= i < pairs.len() ==> is_writable(#[trigger] pairs[i]),
    ensures
        pairs_of(segments_of(selector_text(pairs))) == Ok::<Seq<Pair>, Seq<char>>(pairs),
{
    reveal_strlit("=");
    reveal_strlit(",");
    let parts = pairs.map_values(|p: Pair| pair_text(p));
    let f = |p: Seq<char>| segment_of(p);
    let s = selector_text(pairs);
    assert(","@ =~= seq![',']);
    if pairs.len() == 0 {
        lemma_char_index(s, ',');
        assert(split_of(s, ',') =~= seq![s]);
        lemma_trim(s);
        assert(f(s) is None);
        assert(segments_of(s) =~= Seq::<Seq<char>>::empty()) by {
            Seq::<Seq<char>>::lemma_filter_map_singleton(s, f);
        }
        assert(pairs =~= Seq::<Pair>::empty());
    } else {
        assert forall|k: int| 0 <= k < parts.len() implies !(#[trigger] parts[k]).contains(',') by {
            assert(is_writable(pairs[k]));
            let t = parts[k];
            if t.contains(',') {
                let j = choose|j: int| 0 <= j < t.len() && t[j] == ',';
                if j < pairs[k].0.len() {
                    assert(pairs[k].0[j] == ',');
                } else if j > pairs[k].0.len() {
                    assert(pairs[k].1[j - pairs[k].0.len() - 1] == ',');
                }
            }
        }
        lemma_split_join(parts, ',');
        assert forall|k: int| 0 <= k < parts.len() implies #[trigger] f(parts[k]) == Some(
            parts[k],
        ) by {
            assert(is_writable(pairs[k]));
            lemma_trim(parts[k]);
        }
        lemma_kept(parts, f);
        lemma_pairs_read(pairs);
    }
}

/// Where `f` keeps every element as it is, so does `filter_map`.
proof fn lemma_kept(s: Seq<Seq<char>>, f: spec_fn(Seq<char>) -> Option<Seq<char>>)
    requires
        forall|k: int| 0 <= k < s.len() ==> #[trigger] f(s[k]) == Some(s[k]),
    ensures
        s.filter_map(f) == s,
    decreases s.len(),
{
    reveal(Seq::filter_map);
    if s.len() > 0 {
        let t = s.drop_last();
        assert forall|k: int| 0 <= k < t.len() implies #[trigger] f(t[k]) == Some(t[k]) by {
            assert(f(s[k]) == Some(s[k]));
        }
        lemma_kept(t, f);
        assert(s.take(s.len() as int) =~= s);
        assert(s.take(s.len() - 1) =~= t);
        s.lemma_filter_map_take_succ(f, s.len() - 1);
        assert(f(s[s.len() - 1]) == Some(s.last()));
        assert(s =~= t.push(s.last()));
    }
}

proof fn lemma_pairs_read(pairs: Seq<Pair>)
    requires
        forall|i: int| 0 <= i < pairs.len() ==> is_writable(#[trigger] pairs[i]),
    ensures
        pairs_of(pairs.map_values(|p: Pair| pair_text(p))) == Ok::<Seq<Pair>, Seq<char>>(pairs),
    decreases pairs.len(),
{
    let parts = pairs.map_values(|p: Pair| pair_text(p));
    if pairs.len() == 0 {
        assert(pairs =~= Seq::<Pair>::empty());
    } else {
        lemma_pairs_read(pairs.drop_last());
        assert(parts.drop_last() =~= pairs.drop_last().map_values(|p: Pair| pair_text(p)));
        let p = pairs.last();
        assert(is_writable(pairs[pairs.len() - 1]));
        lemma_pair_read(p);
        assert(pairs =~= pairs.drop_last().push(p));
    }
}

proof fn lemma_pair_read(p: Pair)
    requires
        p.0.len() > 0,
        !p.0.contains('='),
    ensures
        pair_of(pair_text(p)) == Some(p),
{
    reveal_strlit("=");
    let t = pair_text(p);
    let n = p.0.len() as int;
    lemma_char_index(t, '=');
    assert(is_char_index(t, '=', n)) by {
        assert forall|j: int| 0 <= j < n implies t[j] != '=' by {
            assert(p.0.contains(t[j]));
        }
    }
    assert(t.take(n) =~= p.0);
    assert(t.skip(n + 1) =~= p.1);
}

/// Every pair that is read is one that a selector can carry, so writing the
/// pairs and reading them again changes nothing.
pub proof fn law_write_after_read(raw: Seq<char>)
    ensures
        pairs_of(segments_of(raw)) matches Ok(pairs) ==> {
            &&& forall|i: int| 0 <= i < pairs.len() ==> is_writable(#[trigger] pairs[i])
            &&& pairs_of(segments_of(selector_text(pairs))) == Ok::<Seq<Pair>, Seq<char>>(pairs)
        },
{
    if let Ok(pairs) = pairs_of(segments_of(raw)) {
        let pieces = split_of(raw, ',');
        let f = |p: Seq<char>| segment_of(p);
        lemma_split_pieces(raw, ',');
        let segs = segments_of(raw);
        assert forall|k: int| 0 <= k < segs.len() implies is_segment(#[trigger] segs[k]) by {
            assert(segs.contains(segs[k]));
            pieces.lemma_filter_map_contains(f, segs[k]);
            let piece = choose|t: Seq<char>| #[trigger] pieces.contains(t) && f(t) == Some(segs[k]);
            let j = choose|j: int| 0 <= j < pieces.len() && pieces[j] == piece;
            assert(!pieces[j].contains(','));
            lemma_trim(piece);
        }
        lemma_read_is_writable(segs);
        law_read_after_write(pairs);
    }
}

/// What a segment is: trimmed, not empty and free of commas.
spec fn is_segment(s: Seq<char>) -> bool {
    is_trimmed(s) && s.len() > 0 && !s.contains(',')
}

proof fn lemma_read_is_writable(segments: Seq<Seq<char>>)
    requires
        forall|k: int| 0 <= k < segments.len() ==> is_segment(#[trigger] segments[k]),
        pairs_of(segments) is Ok,
    ensures
        forall|i: int| 0 <= i < pairs_of(segments)->Ok_0.len() ==> is_writable(
            #[trigger] pairs_of(segments)->Ok_0[i],
        ),
    decreases segments.len(),
{
    if segments.len() > 0 {
        lemma_read_is_writable(segments.drop_last());
        let s = segments.last();
        assert(is_segment(segments[segments.len() - 1]));
        let p = pair_of(s)->0;
        reveal_strlit("=");
        lemma_char_index(s, '=');
        let n = char_index(s, '=');
        assert(pair_text(p) =~= s);
        assert forall|c: char| p.0.contains(c) || p.1.contains(c) implies s.contains(c) by {
            if p.0.contains(c) {
                let j = choose|j: int| 0 <= j < p.0.len() && p.0[j] == c;
                assert(s[j] == c);
            } else {
                let j = choose|j: int| 0 <= j < p.1.len() && p.1[j] == c;
                assert(s[n + 1 + j] == c);
            }
        }
        assert(is_writable(p));
    }
}

} // verus!
