//! Text: the string operations that the rest of the crate is written with,
//! each stated over the characters of its argument.
use vstd::prelude::*;
use vstd::string::*;
use vstd::utf8::*;

verus! {

// ---------------------------------------------------------------------------
// White space
// ---------------------------------------------------------------------------

/// The characters with Unicode's `White_Space` property.
pub open spec fn is_white_space(c: char) -> bool {
    ||| '\u{9}' <= c <= '\u{d}'
    ||| c == '\u{20}'
    ||| c == '\u{85}'
    ||| c == '\u{a0}'
    ||| c == '\u{1680}'
    ||| '\u{2000}' <= c <= '\u{200a}'
    ||| c == '\u{2028}'
    ||| c == '\u{2029}'
    ||| c == '\u{202f}'
    ||| c == '\u{205f}'
    ||| c == '\u{3000}'
}

/// Whether a character has Unicode's `White_Space` property.
pub fn white_space(c: char) -> (r: bool)
    ensures
        r == is_white_space(c),
{
    ('\u{9}' <= c && c <= '\u{d}') || c == '\u{20}' || c == '\u{85}' || c == '\u{a0}' || c
        == '\u{1680}' || ('\u{2000}' <= c && c <= '\u{200a}') || c == '\u{2028}' || c == '\u{2029}'
        || c == '\u{202f}' || c == '\u{205f}' || c == '\u{3000}'
}

/// `s` without its leading white space.
pub open spec fn trim_start_of(s: Seq<char>) -> Seq<char>
    decreases s.len(),
{
    if s.len() > 0 && is_white_space(s[0]) {
        trim_start_of(s.drop_first())
    } else {
        s
    }
}

/// `s` without its trailing white space.
pub open spec fn trim_end_of(s: Seq<char>) -> Seq<char>
    decreases s.len(),
{
    if s.len() > 0 && is_white_space(s.last()) {
        trim_end_of(s.drop_last())
    } else {
        s
    }
}

/// `s` without the white space at either end.
pub open spec fn trim_of(s: Seq<char>) -> Seq<char> {
    trim_end_of(trim_start_of(s))
}

/// Neither end of the text is white space.
pub open spec fn is_trimmed(s: Seq<char>) -> bool {
    s.len() > 0 ==> !is_white_space(s[0]) && !is_white_space(s.last())
}

proof fn lemma_trim_start(s: Seq<char>)
    ensures
        trim_start_of(s).len() > 0 ==> !is_white_space(trim_start_of(s)[0]),
        forall|c: char| trim_start_of(s).contains(c) ==> s.contains(c),
    decreases s.len(),
{
    if s.len() > 0 && is_white_space(s[0]) {
        let t = s.drop_first();
        lemma_trim_start(t);
        assert forall|c: char| trim_start_of(s).contains(c) implies s.contains(c) by {
            assert(t.contains(c));
            let i = choose|i: int| 0 <= i < t.len() && t[i] == c;
            assert(s[i + 1] == c);
        }
    }
}

/// Trimming the start cuts off white space, all of it, and nothing else.
pub proof fn lemma_trim_start_gap(s: Seq<char>)
    ensures
        trim_start_of(s).len() <= s.len(),
        trim_start_of(s) == s.skip(s.len() - trim_start_of(s).len()),
        forall|k: int|
            0 <= k < s.len() - trim_start_of(s).len() ==> is_white_space(#[trigger] s[k]),
        trim_start_of(s).len() > 0 ==> !is_white_space(trim_start_of(s)[0]),
    decreases s.len(),
{
    if s.len() > 0 && is_white_space(s[0]) {
        let t = s.drop_first();
        lemma_trim_start_gap(t);
        assert(trim_start_of(s) =~= s.skip(s.len() - trim_start_of(s).len()));
        assert forall|k: int| 0 <= k < s.len() - trim_start_of(s).len() implies is_white_space(
            #[trigger] s[k],
        ) by {
            if k > 0 {
                assert(s[k] == t[k - 1]);
            }
        }
    } else {
        assert(s.skip(0) =~= s);
    }
}

proof fn lemma_trim_end(s: Seq<char>)
    ensures
        trim_end_of(s).len() > 0 ==> !is_white_space(trim_end_of(s).last()),
        trim_end_of(s).len() > 0 ==> trim_end_of(s)[0] == s[0],
        trim_end_of(s).len() <= s.len(),
        forall|c: char| trim_end_of(s).contains(c) ==> s.contains(c),
    decreases s.len(),
{
    if s.len() > 0 && is_white_space(s.last()) {
        let t = s.drop_last();
        lemma_trim_end(t);
        assert forall|c: char| trim_end_of(s).contains(c) implies s.contains(c) by {
            assert(t.contains(c));
            let i = choose|i: int| 0 <= i < t.len() && t[i] == c;
            assert(s[i] == c);
        }
    }
}

/// Trimming leaves no white space at either end, adds no character, and
/// leaves a trimmed text as it is.
pub proof fn lemma_trim(s: Seq<char>)
    ensures
        is_trimmed(trim_of(s)),
        forall|c: char| trim_of(s).contains(c) ==> s.contains(c),
        is_trimmed(s) ==> trim_of(s) == s,
{
    lemma_trim_start(s);
    lemma_trim_end(trim_start_of(s));
}

/// The characters of a string, in order.
pub fn char_vec(s: &str) -> (r: Vec<char>)
    ensures
        r@ == s@,
{
    let mut out: Vec<char> = Vec::new();
    for c in it: s.chars()
        invariant
            it.seq() == s@,
            out@ == s@.take(it.index()),
    {
        assert(s@.take(it.index() + 1) =~= s@.take(it.index()).push(c));
        out.push(c);
    }
    assert(s@.take(s@.len() as int) =~= s@);
    out
}

/// `s` without its leading white space.
pub fn trim_start<'a>(s: &'a str) -> (r: &'a str)
    ensures
        r@ == trim_start_of(s@),
{
    let chars = char_vec(s);
    let n: usize = chars.len();
    let mut lo: usize = 0;
    assert(s@.skip(0) =~= s@);
    while lo < n && white_space(chars[lo])
        invariant
            n == chars@.len(),
            chars@ == s@,
            lo <= n,
            trim_start_of(s@) == trim_start_of(s@.skip(lo as int)),
        decreases n - lo,
    {
        assert(s@.skip(lo as int).drop_first() =~= s@.skip(lo + 1));
        lo = lo + 1;
    }
    assert(s@.subrange(lo as int, n as int) =~= s@.skip(lo as int));
    s.substring_char(lo, n)
}

/// `s` without the white space at either end.
pub fn trim<'a>(s: &'a str) -> (r: &'a str)
    ensures
        r@ == trim_of(s@),
{
    let t = trim_start(s);
    let chars = char_vec(t);
    let mut hi: usize = chars.len();
    assert(t@.take(t@.len() as int) =~= t@);
    while hi > 0 && white_space(chars[hi - 1])
        invariant
            chars@ == t@,
            hi <= t@.len(),
            trim_end_of(t@) == trim_end_of(t@.take(hi as int)),
        decreases hi,
    {
        assert(t@.take(hi as int).drop_last() =~= t@.take(hi - 1));
        hi = hi - 1;
    }
    assert(t@.subrange(0, hi as int) =~= t@.take(hi as int));
    t.substring_char(0, hi)
}

// ---------------------------------------------------------------------------
// Searching and splitting
// ---------------------------------------------------------------------------

/// The position of the first `c` in `s`, or the length of `s` if there is none.
pub open spec fn char_index(s: Seq<char>, c: char) -> int
    decreases s.len(),
{
    if s.len() == 0 || s[0] == c {
        0
    } else {
        1 + char_index(s.drop_first(), c)
    }
}

/// `i` is the position of the first `c` in `s`.
pub open spec fn is_char_index(s: Seq<char>, c: char, i: int) -> bool {
    &&& 0 <= i <= s.len()
    &&& forall|j: int| 0 <= j < i ==> s[j] != c
    &&& i < s.len() ==> s[i] == c
}

/// `char_index` is the one position with the property that its name says.
pub proof fn lemma_char_index(s: Seq<char>, c: char)
    ensures
        is_char_index(s, c, char_index(s, c)),
        forall|i: int| is_char_index(s, c, i) ==> i == char_index(s, c),
    decreases s.len(),
{
    if s.len() == 0 || s[0] == c {
    } else {
        let t = s.drop_first();
        lemma_char_index(t, c);
        let k = char_index(t, c);
        assert forall|j: int| 0 <= j < 1 + k implies s[j] != c by {
            if j > 0 {
                assert(s[j] == t[j - 1]);
            }
        }
        if k < t.len() {
            assert(s[1 + k] == t[k]);
        }
        assert forall|i: int| is_char_index(s, c, i) implies i == 1 + k by {
            assert(i != 0);
            assert(is_char_index(t, c, i - 1)) by {
                assert forall|j: int| 0 <= j < i - 1 implies t[j] != c by {
                    assert(t[j] == s[j + 1]);
                }
                if i < s.len() {
                    assert(t[i - 1] == s[i]);
                }
            }
        }
    }
}

/// The position of the first `c` at or after `from`.
pub fn find_char(chars: &Vec<char>, c: char, from: usize) -> (r: usize)
    requires
        from <= chars@.len(),
    ensures
        from <= r <= chars@.len(),
        r - from == char_index(chars@.skip(from as int), c),
        is_char_index(chars@.skip(from as int), c, r - from),
{
    let n: usize = chars.len();
    let mut i: usize = from;
    while i < n && chars[i] != c
        invariant
            n == chars@.len(),
            from <= i <= n,
            forall|j: int| from <= j < i ==> chars@[j] != c,
        decreases n - i,
    {
        i = i + 1;
    }
    proof {
        let s = chars@.skip(from as int);
        assert(is_char_index(s, c, i - from)) by {
            assert forall|j: int| 0 <= j < i - from implies s[j] != c by {
                assert(s[j] == chars@[from + j]);
            }
        }
        lemma_char_index(s, c);
    }
    i
}

/// The pieces of `s` between the occurrences of `sep`: one more piece than
/// there are separators.
pub open spec fn split_of(s: Seq<char>, sep: char) -> Seq<Seq<char>>
    decreases s.len(),
    via split_of_decreases
{
    let i = char_index(s, sep);
    if i >= s.len() {
        seq![s]
    } else {
        seq![s.take(i)] + split_of(s.skip(i + 1), sep)
    }
}

#[via_fn]
proof fn split_of_decreases(s: Seq<char>, sep: char) {
    lemma_char_index(s, sep);
}

/// No piece holds a separator.
pub proof fn lemma_split_pieces(s: Seq<char>, sep: char)
    ensures
        split_of(s, sep).len() > 0,
        forall|k: int| 0 <= k < split_of(s, sep).len() ==> !(#[trigger] split_of(s, sep)[k]).contains(
            sep,
        ),
    decreases s.len(),
{
    lemma_char_index(s, sep);
    let i = char_index(s, sep);
    if i < s.len() {
        let rest = s.skip(i + 1);
        lemma_split_pieces(rest, sep);
        assert forall|k: int| 0 <= k < split_of(s, sep).len() implies !(
        #[trigger] split_of(s, sep)[k]).contains(sep) by {
            if k > 0 {
                assert(split_of(s, sep)[k] == split_of(rest, sep)[k - 1]);
            }
        }
    }
}

/// Splitting undoes joining, where no part holds a separator.
pub proof fn lemma_split_join(parts: Seq<Seq<char>>, sep: char)
    requires
        parts.len() > 0,
        forall|k: int| 0 <= k < parts.len() ==> !(#[trigger] parts[k]).contains(sep),
    ensures
        split_of(join_of(parts, seq![sep]), sep) == parts,
    decreases parts.len(),
{
    let s = join_of(parts, seq![sep]);
    lemma_char_index(s, sep);
    if parts.len() == 1 {
        assert(is_char_index(s, sep, s.len() as int)) by {
            assert forall|j: int| 0 <= j < s.len() implies s[j] != sep by {
                assert(!parts[0].contains(sep));
                assert(parts[0].contains(s[j]));
            }
        }
        assert(split_of(s, sep) =~= parts);
    } else {
        let rest = parts.drop_first();
        assert forall|k: int| 0 <= k < rest.len() implies !(#[trigger] rest[k]).contains(sep) by {
            assert(rest[k] == parts[k + 1]);
        }
        lemma_split_join(rest, sep);
        let n = parts[0].len() as int;
        assert(is_char_index(s, sep, n)) by {
            assert forall|j: int| 0 <= j < n implies s[j] != sep by {
                assert(!parts[0].contains(sep));
                assert(parts[0].contains(s[j]));
            }
        }
        assert(s.take(n) =~= parts[0]);
        assert(s.skip(n + 1) =~= join_of(rest, seq![sep]));
        assert(split_of(s, sep) =~= parts);
    }
}

/// The views of a list of strings.
pub open spec fn texts(v: Seq<String>) -> Seq<Seq<char>> {
    v.map_values(|s: String| s@)
}

/// The view of a string that may be missing.
pub open spec fn opt_text(s: Option<String>) -> Option<Seq<char>> {
    match s {
        Some(t) => Some(t@),
        None => None,
    }
}

/// The view of a borrowed string that may be missing.
pub open spec fn opt_str(s: Option<&str>) -> Option<Seq<char>> {
    match s {
        Some(t) => Some(t@),
        None => None,
    }
}

/// The pieces of `s` between the occurrences of `sep`.
pub fn split(s: &str, sep: char) -> (r: Vec<String>)
    ensures
        texts(r@) == split_of(s@, sep),
{
    let chars = char_vec(s);
    let n: usize = chars.len();
    let mut parts: Vec<String> = Vec::new();
    let mut start: usize = 0;
    assert(s@.skip(0) =~= s@);
    assert(texts(parts@) + split_of(s@, sep) =~= split_of(s@, sep));
    loop
        invariant
            chars@ == s@,
            n == s@.len(),
            start <= n,
            texts(parts@) + split_of(s@.skip(start as int), sep) == split_of(s@, sep),
        decreases n - start,
    {
        let i: usize = find_char(&chars, sep, start);
        let ghost rest = s@.skip(start as int);
        let ghost before = texts(parts@);
        let piece = s.substring_char(start, i);
        assert(piece@ =~= rest.take(i - start));
        parts.push(piece.to_owned());
        assert(texts(parts@) =~= before.push(rest.take(i - start)));
        if i == n {
            assert(rest.take(i - start) =~= rest);
            assert(texts(parts@) =~= before + split_of(rest, sep));
            return parts;
        }
        assert(rest.skip(i - start + 1) =~= s@.skip(i + 1));
        assert(texts(parts@) + split_of(s@.skip(i + 1), sep) =~= before + split_of(rest, sep));
        start = i + 1;
    }
}

/// `s` without the `prefix`es in front of it.
pub open spec fn stripped(s: Seq<char>, prefix: Seq<char>) -> Seq<char>
    decreases s.len(),
{
    if 0 < prefix.len() && prefix.is_prefix_of(s) {
        stripped(s.skip(prefix.len() as int), prefix)
    } else {
        s
    }
}

/// Whether `s` begins with `prefix`, from `from` on.
fn starts_at(s: &Vec<char>, prefix: &Vec<char>, from: usize) -> (r: bool)
    requires
        from <= s@.len(),
    ensures
        r == prefix@.is_prefix_of(s@.skip(from as int)),
{
    let ghost rest = s@.skip(from as int);
    let n: usize = s.len();
    if prefix.len() > n - from {
        return false;
    }
    let mut i: usize = 0;
    while i < prefix.len()
        invariant
            n == s@.len(),
            rest == s@.skip(from as int),
            from + prefix@.len() <= s@.len(),
            i <= prefix@.len(),
            forall|j: int| 0 <= j < i ==> prefix@[j] == rest[j],
        decreases prefix@.len() - i,
    {
        assert(rest[i as int] == s@[from + i]);
        if prefix[i] != s[from + i] {
            return false;
        }
        i = i + 1;
    }
    assert(rest.take(prefix@.len() as int) =~= prefix@);
    true
}

/// `s` without the `prefix`es in front of it.
pub fn strip<'a>(s: &'a str, prefix: &str) -> (r: &'a str)
    ensures
        r@ == stripped(s@, prefix@),
{
    let chars = char_vec(s);
    let head = char_vec(prefix);
    let n: usize = chars.len();
    let mut start: usize = 0;
    assert(s@.skip(0) =~= s@);
    while head.len() > 0 && starts_at(&chars, &head, start)
        invariant
            chars@ == s@,
            head@ == prefix@,
            n == s@.len(),
            start <= n,
            stripped(s@, prefix@) == stripped(s@.skip(start as int), prefix@),
        decreases n - start,
    {
        assert(s@.skip(start as int).skip(head@.len() as int) =~= s@.skip(start + head@.len()));
        start = start + head.len();
    }
    let r = s.substring_char(start, n);
    assert(r@ =~= s@.skip(start as int));
    r
}

// ---------------------------------------------------------------------------
// Building
// ---------------------------------------------------------------------------

/// `a` followed by `b`.
pub fn cat(a: &str, b: &str) -> (r: String)
    ensures
        r@ == a@ + b@,
{
    a.to_owned().concat(b)
}

/// `a` followed by `b` followed by `c`.
pub fn cat3(a: &str, b: &str, c: &str) -> (r: String)
    ensures
        r@ == a@ + b@ + c@,
{
    a.to_owned().concat(b).concat(c)
}

/// The parts, one after the other, with `sep` between each two.
pub open spec fn join_of(parts: Seq<Seq<char>>, sep: Seq<char>) -> Seq<char>
    decreases parts.len(),
{
    if parts.len() == 0 {
        Seq::empty()
    } else if parts.len() == 1 {
        parts[0]
    } else {
        parts[0] + sep + join_of(parts.drop_first(), sep)
    }
}

/// What `join_of` puts behind the first `i` parts.
spec fn join_tail(parts: Seq<Seq<char>>, sep: Seq<char>, i: int) -> Seq<char> {
    if i == 0 {
        join_of(parts, sep)
    } else if i < parts.len() {
        sep + join_of(parts.skip(i), sep)
    } else {
        Seq::empty()
    }
}

/// The parts, one after the other, with `sep` between each two.
pub fn join(parts: &Vec<String>, sep: &str) -> (r: String)
    ensures
        r@ == join_of(texts(parts@), sep@),
{
    let ghost all = texts(parts@);
    let mut out = String::new();
    let mut i: usize = 0;
    assert(out@ + join_tail(all, sep@, 0) =~= join_of(all, sep@));
    while i < parts.len()
        invariant
            all == texts(parts@),
            i <= parts@.len(),
            out@ + join_tail(all, sep@, i as int) == join_of(all, sep@),
        decreases parts@.len() - i,
    {
        let ghost before = out@;
        let ghost rest = all.skip(i as int);
        if i > 0 {
            out.append(sep);
        } else {
            assert(rest =~= all);
        }
        out.append(parts[i].as_str());
        proof {
            let lead: Seq<char> = if i > 0 { sep@ } else { Seq::empty() };
            assert(join_tail(all, sep@, i as int) =~= lead + join_of(rest, sep@));
            assert(rest.drop_first() =~= all.skip(i + 1));
            assert(out@ =~= before + lead + rest[0]);
            assert(join_of(rest, sep@) =~= rest[0] + join_tail(all, sep@, i + 1));
            assert(out@ + join_tail(all, sep@, i + 1) =~= before + (lead + join_of(rest, sep@)));
        }
        i = i + 1;
    }
    assert(out@ =~= join_of(all, sep@));
    out
}

/// A copy of a string that may be missing.
pub fn opt_copy(s: &Option<String>) -> (r: Option<String>)
    ensures
        r == *s,
{
    match s {
        Some(t) => Some(t.clone()),
        None => None,
    }
}

/// The text, or the default where there is none.
pub open spec fn text_or(text: Option<Seq<char>>, default: Seq<char>) -> Seq<char> {
    match text {
        Some(t) => t,
        None => default,
    }
}

/// The text, or the default where there is none.
pub fn text_or_default(text: Option<String>, default: &str) -> (r: String)
    ensures
        r@ == text_or(opt_text(text), default@),
{
    match text {
        Some(t) => t,
        None => default.to_owned(),
    }
}

/// A copy of a list of strings.
pub fn copy_texts(v: &Vec<String>) -> (r: Vec<String>)
    ensures
        r@ == v@,
{
    let mut out: Vec<String> = Vec::new();
    let mut i: usize = 0;
    while i < v.len()
        invariant
            i <= v@.len(),
            out@ == v@.take(i as int),
        decreases v@.len() - i,
    {
        out.push(v[i].clone());
        assert(v@.take(i + 1) =~= v@.take(i as int).push(v@[i as int]));
        i = i + 1;
    }
    assert(v@.take(v@.len() as int) =~= v@);
    out
}

/// The decimal digit that stands for `d`.
pub open spec fn digit_of(d: nat) -> char {
    (48 + d) as char
}

/// `n` in decimal, without leading zeros.
pub open spec fn decimal_of(n: nat) -> Seq<char>
    decreases n,
{
    if n < 10 {
        seq![digit_of(n)]
    } else {
        decimal_of(n / 10).push(digit_of(n % 10))
    }
}

fn digit_text(d: u128) -> (r: &'static str)
    requires
        d < 10,
    ensures
        r@ == seq![digit_of(d as nat)],
{
    proof {
        reveal_strlit("0");
        reveal_strlit("1");
        reveal_strlit("2");
        reveal_strlit("3");
        reveal_strlit("4");
        reveal_strlit("5");
        reveal_strlit("6");
        reveal_strlit("7");
        reveal_strlit("8");
        reveal_strlit("9");
    }
    let r = match d {
        0 => "0",
        1 => "1",
        2 => "2",
        3 => "3",
        4 => "4",
        5 => "5",
        6 => "6",
        7 => "7",
        8 => "8",
        _ => "9",
    };
    assert(r@ =~= seq![digit_of(d as nat)]);
    r
}

/// `n` in decimal.
pub fn decimal(n: u128) -> (r: String)
    ensures
        r@ == decimal_of(n as nat),
    decreases n,
{
    if n < 10 {
        digit_text(n).to_owned()
    } else {
        let head = decimal(n / 10);
        let r = head.concat(digit_text(n % 10));
        assert(r@ =~= decimal_of((n / 10) as nat).push(digit_of((n % 10) as nat)));
        r
    }
}

/// The value of a decimal digit.
pub open spec fn digit_value(c: char) -> Option<nat> {
    if '0' <= c <= '9' {
        Some((c as u32 - '0' as u32) as nat)
    } else {
        None
    }
}

/// The value of a string of decimal digits, read from the left; 0 for none.
pub open spec fn digits_value(s: Seq<char>) -> Option<nat>
    decreases s.len(),
{
    if s.len() == 0 {
        Some(0)
    } else {
        match (digits_value(s.drop_last()), digit_value(s.last())) {
            (Some(v), Some(d)) => Some(v * 10 + d),
            _ => None,
        }
    }
}

/// The number that a text writes: an optional `+`, then at least one digit and
/// nothing else, with a value of at most 65535.
pub open spec fn u16_of(s: Seq<char>) -> Option<u16> {
    let digits = if s.len() > 0 && s[0] == '+' {
        s.drop_first()
    } else {
        s
    };
    match digits_value(digits) {
        Some(v) if digits.len() > 0 && v <= 65535 => Some(v as u16),
        _ => None,
    }
}

/// The number that a text writes.
pub fn parse_u16(s: &str) -> (r: Option<u16>)
    ensures
        r == u16_of(s@),
{
    let chars = char_vec(s);
    let n: usize = chars.len();
    let start: usize = if n > 0 && chars[0] == '+' {
        1
    } else {
        0
    };
    let ghost digits = if s@.len() > 0 && s@[0] == '+' {
        s@.drop_first()
    } else {
        s@
    };
    assert(digits =~= s@.skip(start as int));
    if start == n {
        return None;
    }
    let mut acc: u32 = 0;
    let mut i: usize = start;
    assert(digits.take(0) =~= Seq::<char>::empty());
    while i < n
        invariant
            chars@ == s@,
            n == s@.len(),
            start <= i <= n,
            digits == s@.skip(start as int),
            digits == (if s@.len() > 0 && s@[0] == '+' {
                s@.drop_first()
            } else {
                s@
            }),
            digits_value(digits.take(i - start)) matches Some(v) && acc == (if v <= 65535 {
                v
            } else {
                65536
            }),
        decreases n - i,
    {
        let c = chars[i];
        let ghost done = digits.take(i - start);
        let ghost now = digits.take(i - start + 1);
        assert(now.drop_last() =~= done);
        assert(now.last() == c);
        if !('0' <= c && c <= '9') {
            proof {
                lemma_digits_prefix(digits, i - start + 1);
            }
            return None;
        }
        let d: u32 = (c as u32) - ('0' as u32);
        if acc > 65535 || acc * 10 + d > 65535 {
            acc = 65536;
        } else {
            acc = acc * 10 + d;
        }
        i = i + 1;
    }
    assert(digits.take(n - start) =~= digits);
    if acc > 65535 {
        None
    } else {
        Some(acc as u16)
    }
}

/// What is no string of digits stays none whatever follows it.
proof fn lemma_digits_prefix(s: Seq<char>, n: int)
    requires
        0 <= n <= s.len(),
        digits_value(s.take(n)) is None,
    ensures
        digits_value(s) is None,
    decreases s.len() - n,
{
    if n < s.len() {
        assert(s.take(n + 1).drop_last() =~= s.take(n));
        lemma_digits_prefix(s, n + 1);
    } else {
        assert(s.take(n) =~= s);
    }
}

// ---------------------------------------------------------------------------
// Equality and order
// ---------------------------------------------------------------------------

/// Two strings with the same bytes are the same string.
proof fn lemma_same_bytes(a: Seq<char>, b: Seq<char>)
    ensures
        encode_utf8(a) == encode_utf8(b) ==> a == b,
{
    encode_utf8_decode_utf8(a);
    encode_utf8_decode_utf8(b);
}

/// Whether two strings are equal.
pub fn same(a: &str, b: &str) -> (r: bool)
    ensures
        r == (a@ == b@),
{
    let x = a.as_bytes();
    let y = b.as_bytes();
    let n: usize = x.len();
    proof {
        lemma_same_bytes(a@, b@);
    }
    if y.len() != n {
        return false;
    }
    let mut i: usize = 0;
    while i < n
        invariant
            x@ == encode_utf8(a@),
            y@ == encode_utf8(b@),
            n == x@.len(),
            n == y@.len(),
            i <= n,
            forall|j: int| 0 <= j < i ==> x@[j] == y@[j],
        decreases n - i,
    {
        if x[i] != y[i] {
            return false;
        }
        i = i + 1;
    }
    assert(x@ =~= y@);
    true
}

/// Whether a list holds a text.
pub fn holds(list: &Vec<String>, text: &str) -> (r: bool)
    ensures
        r == texts(list@).contains(text@),
{
    let ghost all = texts(list@);
    let mut i: usize = 0;
    while i < list.len()
        invariant
            all == texts(list@),
            i <= list@.len(),
            forall|j: int| 0 <= j < i ==> all[j] != text@,
        decreases list@.len() - i,
    {
        if same(list[i].as_str(), text) {
            assert(all[i as int] == text@);
            return true;
        }
        i = i + 1;
    }
    false
}

/// Lexicographic order on bytes.
pub open spec fn bytes_before(a: Seq<u8>, b: Seq<u8>) -> bool
    decreases a.len(),
{
    if b.len() == 0 {
        false
    } else if a.len() == 0 {
        true
    } else {
        a[0] < b[0] || (a[0] == b[0] && bytes_before(a.drop_first(), b.drop_first()))
    }
}

/// The order of strings: lexicographic by their bytes.
pub open spec fn before(a: Seq<char>, b: Seq<char>) -> bool {
    bytes_before(encode_utf8(a), encode_utf8(b))
}

proof fn lemma_bytes_order(a: Seq<u8>, b: Seq<u8>)
    ensures
        !bytes_before(a, a),
        !(bytes_before(a, b) && bytes_before(b, a)),
        a == b || bytes_before(a, b) || bytes_before(b, a),
    decreases a.len(),
{
    if a.len() > 0 && b.len() > 0 {
        lemma_bytes_order(a.drop_first(), b.drop_first());
        if a[0] == b[0] && a.drop_first() == b.drop_first() {
            assert(a =~= seq![a[0]] + a.drop_first());
            assert(b =~= seq![b[0]] + b.drop_first());
        }
    } else if a.len() > 0 {
        lemma_bytes_order(a.drop_first(), b);
    } else if b.len() == 0 {
        assert(a =~= b);
    }
}

proof fn lemma_bytes_transitive(a: Seq<u8>, b: Seq<u8>, c: Seq<u8>)
    requires
        bytes_before(a, b),
        bytes_before(b, c),
    ensures
        bytes_before(a, c),
    decreases a.len(),
{
    if a.len() > 0 && a[0] == b[0] && b[0] == c[0] {
        lemma_bytes_transitive(a.drop_first(), b.drop_first(), c.drop_first());
    }
}

/// The order of strings is a strict total order.
pub proof fn lemma_order(a: Seq<char>, b: Seq<char>)
    ensures
        !before(a, a),
        !(before(a, b) && before(b, a)),
        a == b || before(a, b) || before(b, a),
{
    lemma_bytes_order(encode_utf8(a), encode_utf8(b));
    lemma_same_bytes(a, b);
}

/// The order of strings is transitive.
pub proof fn lemma_order_transitive(a: Seq<char>, b: Seq<char>, c: Seq<char>)
    requires
        before(a, b),
        before(b, c),
    ensures
        before(a, c),
{
    lemma_bytes_transitive(encode_utf8(a), encode_utf8(b), encode_utf8(c));
}

/// Whether `a` comes before `b` in the order of strings.
pub fn comes_before(a: &str, b: &str) -> (r: bool)
    ensures
        r == before(a@, b@),
{
    let x = a.as_bytes();
    let y = b.as_bytes();
    let mut i: usize = 0;
    assert(x@.skip(0) =~= x@);
    assert(y@.skip(0) =~= y@);
    while i < x.len() && i < y.len()
        invariant
            x@ == encode_utf8(a@),
            y@ == encode_utf8(b@),
            i <= x@.len(),
            i <= y@.len(),
            before(a@, b@) == bytes_before(x@.skip(i as int), y@.skip(i as int)),
        decreases x@.len() - i,
    {
        assert(x@.skip(i as int).drop_first() =~= x@.skip(i + 1));
        assert(y@.skip(i as int).drop_first() =~= y@.skip(i + 1));
        if x[i] != y[i] {
            return x[i] < y[i];
        }
        i = i + 1;
    }
    i < y.len()
}

} // verus!
