//! Character-level building blocks: whitespace, trimming, searching,
//! and decimal and hexadecimal rendering.

use vstd::prelude::*;
use vstd::utf8::{encode_utf8, encode_scalar, char_is_scalar, is_ascii_chars};

verus! {

/// The Unicode `White_Space` property, which both `char::is_whitespace`
/// and the `\s` class of regular expressions follow.
pub open spec fn is_white_space(c: char) -> bool {
    ||| ('\t' <= c && c <= '\r')
    ||| c == ' '
    ||| c == '\u{85}'
    ||| c == '\u{a0}'
    ||| c == '\u{1680}'
    ||| ('\u{2000}' <= c && c <= '\u{200a}')
    ||| c == '\u{2028}'
    ||| c == '\u{2029}'
    ||| c == '\u{202f}'
    ||| c == '\u{205f}'
    ||| c == '\u{3000}'
}

/// The whitespace characters, one by one: tab, line feed, vertical tab,
/// form feed, carriage return, space, next line, no-break space, ogham space
/// mark, the eleven spaces from en quad to hair space, line separator,
/// paragraph separator, narrow no-break space, medium mathematical space and
/// ideographic space.
pub proof fn lemma_white_space_chars(c: char)
    ensures
        is_white_space(c) <==> (c == '\u{9}' || c == '\u{a}' || c == '\u{b}' || c == '\u{c}' || c == '\u{d}'
            || c == '\u{20}' || c == '\u{85}' || c == '\u{a0}' || c == '\u{1680}' || c == '\u{2000}'
            || c == '\u{2001}' || c == '\u{2002}' || c == '\u{2003}' || c == '\u{2004}' || c == '\u{2005}'
            || c == '\u{2006}' || c == '\u{2007}' || c == '\u{2008}' || c == '\u{2009}' || c == '\u{200a}'
            || c == '\u{2028}' || c == '\u{2029}' || c == '\u{202f}' || c == '\u{205f}' || c == '\u{3000}'),
{
}

pub fn white_space(c: char) -> (r: bool)
    ensures
        r == is_white_space(c),
{
    ('\t' <= c && c <= '\r') || c == ' ' || c == '\u{85}' || c == '\u{a0}' || c == '\u{1680}'
        || ('\u{2000}' <= c && c <= '\u{200a}') || c == '\u{2028}' || c == '\u{2029}'
        || c == '\u{202f}' || c == '\u{205f}' || c == '\u{3000}'
}

/// The characters of a string slice, in order.
pub fn chars_of(s: &str) -> (r: Vec<char>)
    ensures
        r@ == s@,
{
    let mut out: Vec<char> = Vec::new();
    for c in it: s.chars()
        invariant
            out@ == it.seq().take(it.index()),
    {
        out.push(c);
    }
    out
}


/// `String::push`: the string afterwards is the string before with `c` after it.
#[verifier::external_body]
pub(crate) fn push_char(s: &mut String, c: char)
    ensures
        final(s)@ == old(s)@.push(c),
{
    s.push(c)
}

/// What `str::to_lowercase` gives: the text with each character replaced
/// by its Unicode lowercase mapping.
pub uninterp spec fn lowercase_of(s: Seq<char>) -> Seq<char>;

/// What `str::to_uppercase` gives: the text with each character replaced
/// by its Unicode uppercase mapping.
pub uninterp spec fn uppercase_of(s: Seq<char>) -> Seq<char>;

/// The ASCII lowercase of a character: `A` to `Z` become `a` to `z`.
pub open spec fn ascii_lower(c: char) -> char {
    if 'A' <= c && c <= 'Z' { ((c as int) + 32) as char } else { c }
}

/// The ASCII uppercase of a character: `a` to `z` become `A` to `Z`.
pub open spec fn ascii_upper(c: char) -> char {
    if 'a' <= c && c <= 'z' { ((c as int) - 32) as char } else { c }
}

/// `str::to_lowercase`. The result is a function of the text
/// (`lowercase_of`). As std documents it, the text is lowercased character by
/// character, each ASCII letter to its ASCII lowercase, and only `Σ` looks
/// at its neighbours; so a run of ASCII characters comes out as its ASCII
/// lowercase, in one piece, whatever surrounds it. The Unicode case tables
/// for other characters are left to std.
#[verifier::external_body]
pub(crate) fn to_lowercase(s: &str) -> (r: String)
    ensures
        r@ == lowercase_of(s@),
        is_ascii_chars(s@) ==> r@ == s@.map_values(|c: char| ascii_lower(c)),
        forall|a: Seq<char>, x: Seq<char>, b: Seq<char>|
            #![trigger a + x + b]
            s@ == a + x + b && is_ascii_chars(x) ==> has_sub(r@, x.map_values(|c: char| ascii_lower(c))),
{
    s.to_lowercase()
}

/// `str::to_uppercase`. The result is a function of the text
/// (`uppercase_of`); on ASCII text it is the ASCII uppercase, character by
/// character, as std documents for ASCII letters. The Unicode case tables
/// for other characters are left to std.
#[verifier::external_body]
pub(crate) fn to_uppercase(s: &str) -> (r: String)
    ensures
        r@ == uppercase_of(s@),
        is_ascii_chars(s@) ==> r@ == s@.map_values(|c: char| ascii_upper(c)),
{
    s.to_uppercase()
}

/// The characters `cs[from..to]` as a new string.
pub fn string_from(cs: &Vec<char>, from: usize, to: usize) -> (r: String)
    requires
        from <= to <= cs@.len(),
    ensures
        r@ == cs@.subrange(from as int, to as int),
{
    let mut out = String::new();
    let mut k = from;
    while k < to
        invariant
            from <= k <= to <= cs@.len(),
            out@ == cs@.subrange(from as int, k as int),
        decreases to - k,
    {
        push_char(&mut out, cs[k]);
        assert(cs@.subrange(from as int, k + 1) =~= cs@.subrange(from as int, k as int).push(cs@[k as int]));
        k = k + 1;
    }
    out
}

/// What `str::trim_start` leaves: the string without its leading whitespace.
pub open spec fn trim_start(s: Seq<char>) -> Seq<char>
    decreases s.len(),
{
    if s.len() > 0 && is_white_space(s[0]) {
        trim_start(s.drop_first())
    } else {
        s
    }
}

/// What `str::trim_end` leaves: the string without its trailing whitespace.
pub open spec fn trim_end(s: Seq<char>) -> Seq<char>
    decreases s.len(),
{
    if s.len() > 0 && is_white_space(s.last()) {
        trim_end(s.drop_last())
    } else {
        s
    }
}

/// What `str::trim` leaves: the string without leading and trailing whitespace.
pub open spec fn trim_spec(s: Seq<char>) -> Seq<char> {
    trim_end(trim_start(s))
}

proof fn lemma_trim_start_at(s: Seq<char>, i: int)
    requires
        0 <= i <= s.len(),
        forall|k: int| 0 <= k < i ==> is_white_space(#[trigger] s[k]),
        i == s.len() || !is_white_space(s[i]),
    ensures
        trim_start(s) == s.subrange(i, s.len() as int),
    decreases i,
{
    if i == 0 {
        assert(s.subrange(0, s.len() as int) =~= s);
    } else {
        let t = s.drop_first();
        assert forall|k: int| 0 <= k < i - 1 implies is_white_space(#[trigger] t[k]) by {
            assert(t[k] == s[k + 1]);
        }
        lemma_trim_start_at(t, i - 1);
        assert(t.subrange(i - 1, t.len() as int) =~= s.subrange(i, s.len() as int));
    }
}

proof fn lemma_trim_end_at(s: Seq<char>, j: int)
    requires
        0 <= j <= s.len(),
        forall|k: int| j <= k < s.len() ==> is_white_space(#[trigger] s[k]),
        j == 0 || !is_white_space(s[j - 1]),
    ensures
        trim_end(s) == s.subrange(0, j),
    decreases s.len() - j,
{
    if j == s.len() {
        assert(s.subrange(0, j) =~= s);
    } else {
        let t = s.drop_last();
        assert forall|k: int| j <= k < t.len() implies is_white_space(#[trigger] t[k]) by {
            assert(t[k] == s[k]);
        }
        lemma_trim_end_at(t, j);
        assert(t.subrange(0, j) =~= s.subrange(0, j));
    }
}

/// The index of the first character of `cs` that is not whitespace, so that
/// `cs[i..]` is what `str::trim_start` leaves.
pub fn trim_start_index(cs: &Vec<char>) -> (i: usize)
    ensures
        i <= cs@.len(),
        cs@.subrange(i as int, cs@.len() as int) == trim_start(cs@),
        forall|k: int| 0 <= k < i ==> is_white_space(#[trigger] cs@[k]),
        i == cs@.len() || !is_white_space(cs@[i as int]),
{
    let n = cs.len();
    let mut i: usize = 0;
    while i < n && white_space(cs[i])
        invariant
            i <= n == cs@.len(),
            forall|k: int| 0 <= k < i ==> is_white_space(#[trigger] cs@[k]),
        decreases n - i,
    {
        i = i + 1;
    }
    proof {
        lemma_trim_start_at(cs@, i as int);
    }
    i
}

/// The bounds `(i, j)` such that `cs[i..j]` is `cs` without leading and
/// trailing whitespace.
pub fn trim_bounds(cs: &Vec<char>) -> (r: (usize, usize))
    ensures
        r.0 <= r.1 <= cs@.len(),
        cs@.subrange(r.0 as int, r.1 as int) == trim_spec(cs@),
{
    let n = cs.len();
    let i = trim_start_index(cs);
    let ghost t = cs@.subrange(i as int, n as int);
    let mut j: usize = n;
    while j > i && white_space(cs[j - 1])
        invariant
            i <= j <= n == cs@.len(),
            t == cs@.subrange(i as int, n as int),
            forall|k: int| j <= k < n ==> is_white_space(#[trigger] cs@[k]),
        decreases j,
    {
        j = j - 1;
    }
    proof {
        assert forall|k: int| j - i <= k < t.len() implies is_white_space(#[trigger] t[k]) by {
            assert(t[k] == cs@[k + i]);
        }
        if j > i {
            assert(t[j - i - 1] == cs@[j - 1]);
        }
        lemma_trim_end_at(t, j - i);
        assert(t.subrange(0, j - i) =~= cs@.subrange(i as int, j as int));
    }
    (i, j)
}

/// `str::trim`, as a new string.
pub fn trim(s: &str) -> (r: String)
    ensures
        r@ == trim_spec(s@),
        exists|i: int, j: int| 0 <= i <= j <= s@.len() && r@ == s@.subrange(i, j),
{
    let cs = chars_of(s);
    let (i, j) = trim_bounds(&cs);
    string_from(&cs, i, j)
}

proof fn lemma_trim_start_shape(s: Seq<char>)
    ensures
        trim_start(s).len() > 0 ==> !is_white_space(trim_start(s)[0]),
    decreases s.len(),
{
    if s.len() > 0 && is_white_space(s[0]) {
        lemma_trim_start_shape(s.drop_first());
    }
}

proof fn lemma_trim_end_shape(s: Seq<char>)
    ensures
        trim_end(s).len() <= s.len(),
        trim_end(s) == s.take(trim_end(s).len() as int),
        trim_end(s).len() > 0 ==> !is_white_space(trim_end(s).last()),
    decreases s.len(),
{
    if s.len() > 0 && is_white_space(s.last()) {
        lemma_trim_end_shape(s.drop_last());
        assert(s.drop_last().take(trim_end(s).len() as int) =~= s.take(trim_end(s).len() as int));
    } else {
        assert(s.take(s.len() as int) =~= s);
    }
}

/// Trimming from the front stops at or before any character that is not
/// whitespace.
pub proof fn lemma_trim_start_keeps(s: Seq<char>, k: int)
    requires
        0 <= k < s.len(),
        !is_white_space(s[k]),
    ensures
        exists|i: int| 0 <= i <= k && trim_start(s) == s.skip(i),
    decreases k,
{
    if is_white_space(s[0]) {
        let t = s.drop_first();
        assert(t[k - 1] == s[k]);
        lemma_trim_start_keeps(t, k - 1);
        let i = choose|i: int| 0 <= i <= k - 1 && trim_start(t) == t.skip(i);
        assert(t.skip(i) =~= s.skip(i + 1));
    } else {
        assert(s.skip(0) =~= s);
    }
}

/// Trimming from the back stops after any character that is not
/// whitespace.
pub proof fn lemma_trim_end_keeps(s: Seq<char>, k: int)
    requires
        0 <= k < s.len(),
        !is_white_space(s[k]),
    ensures
        exists|j: int| k < j <= s.len() && trim_end(s) == s.take(j),
    decreases s.len() - k,
{
    if is_white_space(s.last()) {
        let t = s.drop_last();
        assert(t[k] == s[k]);
        lemma_trim_end_keeps(t, k);
        let j = choose|j: int| k < j <= t.len() && trim_end(t) == t.take(j);
        assert(t.take(j) =~= s.take(j));
    } else {
        assert(s.take(s.len() as int) =~= s);
    }
}

proof fn lemma_trim_start_white_prefix(w: Seq<char>, y: Seq<char>)
    requires
        forall|k: int| 0 <= k < w.len() ==> is_white_space(#[trigger] w[k]),
    ensures
        trim_start(w + y) == trim_start(y),
    decreases w.len(),
{
    if w.len() == 0 {
        assert(w + y =~= y);
    } else {
        assert((w + y)[0] == w[0]);
        assert((w + y).drop_first() =~= w.drop_first() + y);
        let v = w.drop_first();
        assert forall|k: int| 0 <= k < v.len() implies is_white_space(#[trigger] v[k]) by {
            assert(v[k] == w[k + 1]);
        }
        lemma_trim_start_white_prefix(v, y);
    }
}

proof fn lemma_trim_end_white_suffix(y: Seq<char>, w: Seq<char>)
    requires
        forall|k: int| 0 <= k < w.len() ==> is_white_space(#[trigger] w[k]),
    ensures
        trim_end(y + w) == trim_end(y),
    decreases w.len(),
{
    if w.len() == 0 {
        assert(y + w =~= y);
    } else {
        assert((y + w).last() == w.last());
        assert((y + w).drop_last() =~= y + w.drop_last());
        let v = w.drop_last();
        assert forall|k: int| 0 <= k < v.len() implies is_white_space(#[trigger] v[k]) by {
            assert(v[k] == w[k]);
        }
        lemma_trim_end_white_suffix(y, v);
    }
}

proof fn lemma_trim_with_white_suffix(x: Seq<char>, w: Seq<char>)
    requires
        forall|k: int| 0 <= k < w.len() ==> is_white_space(#[trigger] w[k]),
    ensures
        trim_end(trim_start(x + w)) == trim_end(trim_start(x)),
    decreases x.len(),
{
    if x.len() == 0 {
        assert(x + w =~= w + Seq::<char>::empty());
        lemma_trim_start_white_prefix(w, Seq::<char>::empty());
    } else if is_white_space(x[0]) {
        assert((x + w)[0] == x[0]);
        assert((x + w).drop_first() =~= x.drop_first() + w);
        lemma_trim_with_white_suffix(x.drop_first(), w);
    } else {
        assert((x + w)[0] == x[0]);
        lemma_trim_end_white_suffix(x, w);
    }
}

/// Whitespace around a text is what trimming removes: the trimmed text is
/// the same with or without it.
pub proof fn lemma_trim_absorbs_white_space(w1: Seq<char>, x: Seq<char>, w2: Seq<char>)
    requires
        forall|k: int| 0 <= k < w1.len() ==> is_white_space(#[trigger] w1[k]),
        forall|k: int| 0 <= k < w2.len() ==> is_white_space(#[trigger] w2[k]),
    ensures
        trim_spec(w1 + x + w2) == trim_spec(x),
{
    assert(w1 + x + w2 =~= w1 + (x + w2));
    lemma_trim_start_white_prefix(w1, x + w2);
    lemma_trim_with_white_suffix(x, w2);
}

/// Trimming twice is trimming once: trimmed text has no whitespace left at
/// either end.
pub proof fn lemma_trim_idempotent(s: Seq<char>)
    ensures
        trim_spec(trim_spec(s)) == trim_spec(s),
        trim_spec(s).len() > 0 ==> !is_white_space(trim_spec(s)[0]) && !is_white_space(trim_spec(s).last()),
{
    let u = trim_start(s);
    let t = trim_end(u);
    lemma_trim_start_shape(s);
    lemma_trim_end_shape(u);
    if t.len() > 0 {
        assert(t[0] == u[0]);
        assert(trim_start(t) == t);
        assert(trim_end(t) == t);
    } else {
        assert(trim_start(t) == t);
        assert(trim_end(t) == t);
    }
}

/// `needle` occurs in `hay` as a contiguous run.
pub open spec fn has_sub(hay: Seq<char>, needle: Seq<char>) -> bool {
    exists|i: int| 0 <= i && i + needle.len() <= hay.len() && #[trigger] hay.subrange(i, i + needle.len()) == needle
}

/// `needle` occurs in `hay` starting at `i`.
pub open spec fn occurs_at(hay: Seq<char>, needle: Seq<char>, i: int) -> bool {
    &&& 0 <= i
    &&& i + needle.len() <= hay.len()
    &&& forall|k: int| 0 <= k < needle.len() ==> #[trigger] hay[i + k] == needle[k]
}

proof fn lemma_occurs_at(hay: Seq<char>, needle: Seq<char>, i: int)
    ensures
        occurs_at(hay, needle, i) <==> (0 <= i && i + needle.len() <= hay.len() && hay.subrange(i, i + needle.len()) == needle),
{
    if 0 <= i && i + needle.len() <= hay.len() {
        if occurs_at(hay, needle, i) {
            assert forall|k: int| 0 <= k < needle.len() implies #[trigger] hay.subrange(i, i + needle.len())[k] == needle[k] by {
                assert(hay[i + k] == needle[k]);
            }
            assert(hay.subrange(i, i + needle.len()) =~= needle);
        }
        if hay.subrange(i, i + needle.len()) == needle {
            assert forall|k: int| 0 <= k < needle.len() implies #[trigger] hay[i + k] == needle[k] by {
                assert(hay.subrange(i, i + needle.len())[k] == hay[i + k]);
            }
        }
    }
}

/// Whether `needle` occurs in `hay`, as `str::contains` with a string pattern.
pub fn contains_chars(hay: &Vec<char>, needle: &Vec<char>) -> (r: bool)
    ensures
        r == has_sub(hay@, needle@),
{
    let n = hay.len();
    let m = needle.len();
    if m > n {
        proof {
            assert forall|i: int| 0 <= i && i + m <= n implies #[trigger] hay@.subrange(i, i + needle@.len()) != needle@ by {}
        }
        return false;
    }
    let mut i: usize = 0;
    while i <= n - m
        invariant
            m <= n,
            n == hay@.len(),
            m == needle@.len(),
            i <= n - m + 1,
            forall|p: int| 0 <= p < i ==> !occurs_at(hay@, needle@, p),
        decreases n - i,
    {
        let mut k: usize = 0;
        let mut ok = true;
        while k < m
            invariant
                m == needle@.len(),
                i + m <= n == hay@.len(),
                k <= m,
                ok <==> forall|q: int| 0 <= q < k ==> #[trigger] hay@[i + q] == needle@[q],
            decreases m - k,
        {
            if hay[i + k] != needle[k] {
                ok = false;
            }
            k = k + 1;
        }
        if ok {
            proof {
                lemma_occurs_at(hay@, needle@, i as int);
            }
            return true;
        }
        i = i + 1;
    }
    proof {
        assert forall|p: int| 0 <= p && p + needle@.len() <= hay@.len() implies #[trigger] hay@.subrange(p, p + needle@.len()) != needle@ by {
            lemma_occurs_at(hay@, needle@, p);
        }
    }
    false
}

/// Whether `needle` occurs in `hay`.
pub fn contains_str(hay: &Vec<char>, needle: &str) -> (r: bool)
    ensures
        r == has_sub(hay@, needle@),
{
    let nv = chars_of(needle);
    contains_chars(hay, &nv)
}

/// The index of the first `c` in `s`, or the length of `s` where there is none.
pub open spec fn first_index(s: Seq<char>, c: char) -> int
    decreases s.len(),
{
    if s.len() == 0 {
        0
    } else if s[0] == c {
        0
    } else {
        1 + first_index(s.drop_first(), c)
    }
}

pub proof fn lemma_first_index(s: Seq<char>, c: char)
    ensures
        0 <= first_index(s, c) <= s.len(),
        forall|k: int| 0 <= k < first_index(s, c) ==> s[k] != c,
        first_index(s, c) < s.len() ==> s[first_index(s, c)] == c,
        first_index(s, c) == s.len() <==> !s.contains(c),
    decreases s.len(),
{
    if s.len() > 0 && s[0] != c {
        let t = s.drop_first();
        lemma_first_index(t, c);
        assert forall|k: int| 0 <= k < first_index(s, c) implies s[k] != c by {
            if k > 0 {
                assert(s[k] == t[k - 1]);
            }
        }
        if !t.contains(c) {
            assert forall|k: int| 0 <= k < s.len() implies s[k] != c by {
                if k > 0 {
                    assert(s[k] == t[k - 1]);
                }
            }
        } else {
            let w = choose|w: int| 0 <= w < t.len() && t[w] == c;
            assert(s[w + 1] == c);
        }
    }
}

/// The index of the first `c` in `cs` at or after `from`, or the length of
/// `cs` where there is none.
pub fn find_char_from(cs: &Vec<char>, from: usize, c: char) -> (r: usize)
    requires
        from <= cs@.len(),
    ensures
        r == from + first_index(cs@.skip(from as int), c),
        from <= r <= cs@.len(),
{
    let n = cs.len();
    let mut i = from;
    proof {
        lemma_first_index(cs@.skip(from as int), c);
    }
    while i < n && cs[i] != c
        invariant
            from <= i <= n == cs@.len(),
            forall|k: int| from <= k < i ==> cs@[k] != c,
        decreases n - i,
    {
        i = i + 1;
    }
    proof {
        let t = cs@.skip(from as int);
        let f = first_index(t, c);
        if f < i - from {
            assert(t[f] == cs@[from + f]);
        }
        if i - from < f {
            assert(t[i - from] == cs@[i as int]);
        }
    }
    i
}

/// Whether the character `c` occurs in `cs`.
pub fn contains_char(cs: &Vec<char>, c: char) -> (r: bool)
    ensures
        r == cs@.contains(c),
{
    let n = cs.len();
    let mut i: usize = 0;
    while i < n
        invariant
            n == cs@.len(),
            i <= n,
            forall|k: int| 0 <= k < i ==> cs@[k] != c,
        decreases n - i,
    {
        if cs[i] == c {
            assert(cs@[i as int] == c);
            return true;
        }
        i = i + 1;
    }
    false
}

/// How many bytes the UTF-8 encoding of `c` takes.
pub open spec fn char_width(c: char) -> nat {
    if (c as u32) <= 0x7f {
        1
    } else if (c as u32) <= 0x7ff {
        2
    } else if (c as u32) <= 0xffff {
        3
    } else {
        4
    }
}

pub proof fn lemma_encode_utf8_concat(a: Seq<char>, b: Seq<char>)
    ensures
        encode_utf8(a + b) == encode_utf8(a) + encode_utf8(b),
    decreases a.len(),
{
    if a.len() == 0 {
        assert(a + b =~= b);
        assert(encode_utf8(a) + encode_utf8(b) =~= encode_utf8(b));
    } else {
        assert((a + b).drop_first() =~= a.drop_first() + b);
        lemma_encode_utf8_concat(a.drop_first(), b);
        assert(encode_utf8(a + b) =~= encode_utf8(a) + encode_utf8(b));
    }
}

pub proof fn lemma_encode_char_len(c: char)
    ensures
        encode_scalar(c as u32).len() == char_width(c),
        encode_utf8(seq![c]) == encode_scalar(c as u32),
{
    char_is_scalar(c);
    assert(seq![c].drop_first() =~= Seq::<char>::empty());
    assert(encode_utf8(Seq::<char>::empty()) =~= Seq::<u8>::empty());
    assert(seq![c][0] == c);
    assert(encode_utf8(seq![c]) =~= encode_scalar(c as u32));
}

fn width_of(c: char) -> (w: usize)
    ensures
        w == char_width(c),
{
    if c <= '\u{7f}' {
        1
    } else if c <= '\u{7ff}' {
        2
    } else if c <= '\u{ffff}' {
        3
    } else {
        4
    }
}

/// The length in bytes of the UTF-8 encoding of `cs`, or `cap` where it is
/// longer; `str::len` without its overflow.
pub fn utf8_len_at_most(cs: &Vec<char>, cap: usize) -> (r: usize)
    ensures
        r as int == if encode_utf8(cs@).len() < cap { encode_utf8(cs@).len() as int } else { cap as int },
{
    let n = cs.len();
    let mut acc: usize = 0;
    let mut i: usize = 0;
    while i < n && acc < cap
        invariant
            n == cs@.len(),
            i <= n,
            acc <= cap,
            acc < cap ==> acc == encode_utf8(cs@.take(i as int)).len(),
            acc == cap ==> encode_utf8(cs@.take(i as int)).len() >= cap,
        decreases n - i,
    {
        proof {
            lemma_encode_char_len(cs@[i as int]);
            assert(cs@.take(i + 1) =~= cs@.take(i as int) + seq![cs@[i as int]]);
            lemma_encode_utf8_concat(cs@.take(i as int), seq![cs@[i as int]]);
        }
        let w = width_of(cs[i]);
        if w >= cap - acc {
            acc = cap;
        } else {
            acc = acc + w;
        }
        i = i + 1;
    }
    proof {
        assert(cs@ =~= cs@.take(i as int) + cs@.skip(i as int));
        lemma_encode_utf8_concat(cs@.take(i as int), cs@.skip(i as int));
        if acc < cap {
            assert(cs@.take(i as int) =~= cs@);
        }
    }
    acc
}

/// Whether the UTF-8 encoding of `cs` is shorter than `bound` bytes, as
/// `str::len() < bound` tests it.
pub fn utf8_len_below(cs: &Vec<char>, bound: usize) -> (r: bool)
    ensures
        r == (encode_utf8(cs@).len() < bound),
{
    utf8_len_at_most(cs, bound) < bound
}

/// The ASCII digit for `d`, for `d` below ten.
pub open spec fn digit_char(d: int) -> char {
    (d + 48) as char
}

/// The decimal digits of `n`, most significant first, without leading zeros.
pub open spec fn decimal(n: nat) -> Seq<char>
    decreases n,
{
    if n < 10 {
        seq![digit_char(n as int)]
    } else {
        decimal(n / 10).push(digit_char((n % 10) as int))
    }
}

/// The decimal rendering of a signed integer, with `-` before a negative one.
pub open spec fn signed_decimal(n: int) -> Seq<char> {
    if n < 0 {
        seq!['-'] + decimal((-n) as nat)
    } else {
        decimal(n as nat)
    }
}

/// The number that a run of decimal digits spells, most significant first.
pub open spec fn decimal_value(s: Seq<char>) -> int
    decreases s.len(),
{
    if s.len() == 0 {
        0
    } else {
        decimal_value(s.drop_last()) * 10 + (s.last() as int - 48)
    }
}

/// The decimal digits of a number are ASCII digits, with no leading zero,
/// that spell the number back.
pub proof fn lemma_decimal_reads_back(n: nat)
    ensures
        decimal(n).len() > 0,
        forall|i: int| 0 <= i < decimal(n).len() ==> '0' <= #[trigger] decimal(n)[i] && decimal(n)[i] <= '9',
        decimal_value(decimal(n)) == n,
        decimal(n)[0] == '0' ==> n == 0,
    decreases n,
{
    if n < 10 {
        assert(decimal(n) =~= seq![digit_char(n as int)]);
        assert(seq![digit_char(n as int)].drop_last() =~= Seq::<char>::empty());
        assert(decimal_value(Seq::<char>::empty()) == 0);
    } else {
        let q = (n / 10) as nat;
        let r = (n % 10) as int;
        lemma_decimal_reads_back(q);
        let d = decimal(n);
        assert(d == decimal(q).push(digit_char(r)));
        assert(d.drop_last() =~= decimal(q));
        assert forall|i: int| 0 <= i < d.len() implies '0' <= #[trigger] d[i] && d[i] <= '9' by {
            if i < decimal(q).len() {
                assert(d[i] == decimal(q)[i]);
            }
        }
        assert(q * 10 + r == n) by (nonlinear_arith)
            requires
                q == n / 10,
                r == n % 10,
        ;
        assert(d[0] == decimal(q)[0]);
    }
}

fn digit(d: u64) -> (c: char)
    requires
        d < 10,
    ensures
        c == digit_char(d as int),
{
    let b: u8 = d as u8 + 48;
    b as char
}

/// Appends the decimal digits of `n`.
pub fn push_decimal(out: &mut String, n: u64)
    ensures
        final(out)@ == old(out)@ + decimal(n as nat),
    decreases n,
{
    if n >= 10 {
        push_decimal(out, n / 10);
    }
    push_char(out, digit(n % 10));
    proof {
        if n >= 10 {
            assert(decimal(n as nat) == decimal((n / 10) as nat).push(digit_char((n % 10) as int)));
        }
    }
}

/// Appends the decimal rendering of `n`, as `Display` for `i64` writes it.
pub fn push_signed_decimal(out: &mut String, n: i64)
    ensures
        final(out)@ == old(out)@ + signed_decimal(n as int),
{
    if n < 0 {
        push_char(out, '-');
        let m: u64 = if n == i64::MIN { 9223372036854775808u64 } else { (-n) as u64 };
        push_decimal(out, m);
    } else {
        push_decimal(out, n as u64);
    }
}

/// The lowercase hexadecimal digit for `d`, for `d` below sixteen.
pub open spec fn hex_lower_digit(d: int) -> char {
    if d < 10 { (d + 48) as char } else { (d + 87) as char }
}

/// The uppercase hexadecimal digit for `d`, for `d` below sixteen.
pub open spec fn hex_upper_digit(d: int) -> char {
    if d < 10 { (d + 48) as char } else { (d + 55) as char }
}

pub fn hex_lower_char(d: u8) -> (c: char)
    requires
        d < 16,
    ensures
        c == hex_lower_digit(d as int),
{
    if d < 10 { (d + 48) as char } else { (d + 87) as char }
}

pub fn hex_upper_char(d: u8) -> (c: char)
    requires
        d < 16,
    ensures
        c == hex_upper_digit(d as int),
{
    if d < 10 { (d + 48) as char } else { (d + 55) as char }
}

/// Two lowercase hexadecimal digits per byte, as `{:x}` writes a digest.
pub open spec fn hex_lower(bytes: Seq<u8>) -> Seq<char>
    decreases bytes.len(),
{
    if bytes.len() == 0 {
        Seq::empty()
    } else {
        hex_lower(bytes.drop_last()) + seq![
            hex_lower_digit((bytes.last() / 16) as int),
            hex_lower_digit((bytes.last() % 16) as int),
        ]
    }
}

/// Lowercase hexadecimal is ASCII, two characters per byte.
pub proof fn lemma_hex_lower_ascii(bytes: Seq<u8>)
    ensures
        hex_lower(bytes).len() == 2 * bytes.len(),
        is_ascii_chars(hex_lower(bytes)),
    decreases bytes.len(),
{
    if bytes.len() > 0 {
        lemma_hex_lower_ascii(bytes.drop_last());
        let h = hex_lower(bytes);
        let prev = hex_lower(bytes.drop_last());
        assert forall|i: int| 0 <= i < h.len() implies '\0' <= #[trigger] h[i] <= '\u{7f}' by {
            if i < prev.len() {
                assert(h[i] == prev[i]);
            }
        }
    }
}

/// The value of a lowercase hexadecimal digit.
pub open spec fn hex_lower_value(c: char) -> int {
    if '0' <= c && c <= '9' { c as int - 48 } else { c as int - 87 }
}

/// Lowercase hexadecimal spells each byte in two digits, high half first,
/// using `0`-`9` and `a`-`f`.
pub proof fn lemma_hex_lower_reads_back(bytes: Seq<u8>)
    ensures
        hex_lower(bytes).len() == 2 * bytes.len(),
        forall|i: int| 0 <= i < 2 * bytes.len() ==> ('0' <= #[trigger] hex_lower(bytes)[i] <= '9') || ('a'
            <= hex_lower(bytes)[i] <= 'f'),
        forall|i: int|
            0 <= i < bytes.len() ==> hex_lower_value(hex_lower(bytes)[2 * i]) * 16 + hex_lower_value(
                hex_lower(bytes)[2 * i + 1],
            ) == #[trigger] bytes[i],
    decreases bytes.len(),
{
    if bytes.len() > 0 {
        let prev = bytes.drop_last();
        lemma_hex_lower_reads_back(prev);
        let h = hex_lower(bytes);
        let hp = hex_lower(prev);
        let b = bytes.last();
        assert(h =~= hp + seq![hex_lower_digit((b / 16) as int), hex_lower_digit((b % 16) as int)]);
        assert forall|i: int| 0 <= i < 2 * bytes.len() implies ('0' <= #[trigger] h[i] <= '9') || ('a' <= h[i]
            <= 'f') by {
            if i < hp.len() {
                assert(h[i] == hp[i]);
            }
        }
        assert forall|i: int| 0 <= i < bytes.len() implies hex_lower_value(h[2 * i]) * 16 + hex_lower_value(
            h[2 * i + 1],
        ) == #[trigger] bytes[i] by {
            if i < prev.len() {
                assert(h[2 * i] == hp[2 * i]);
                assert(h[2 * i + 1] == hp[2 * i + 1]);
                assert(prev[i] == bytes[i]);
            } else {
                assert(bytes[i] == b);
            }
        }
    }
}

/// The bytes rendered as lowercase hexadecimal.
pub fn to_hex_lower(bytes: &[u8]) -> (r: String)
    ensures
        r@ == hex_lower(bytes@),
{
    let mut out = String::new();
    let n = bytes.len();
    let mut i: usize = 0;
    while i < n
        invariant
            n == bytes@.len(),
            i <= n,
            out@ == hex_lower(bytes@.take(i as int)),
        decreases n - i,
    {
        let b = bytes[i];
        push_char(&mut out, hex_lower_char(b / 16));
        push_char(&mut out, hex_lower_char(b % 16));
        assert(bytes@.take(i + 1).drop_last() =~= bytes@.take(i as int));
        i = i + 1;
    }
    assert(bytes@.take(n as int) =~= bytes@);
    out
}

} // verus!
