//! Heuristic classification of copied text: colors, urls, JSON, code in
//! several languages, plain text; and detection of secrets.

use vstd::prelude::*;
use vstd::utf8::{encode_utf8, is_ascii_chars};
use crate::models::{ClipMeta, ClipType, MetaView};
use crate::patterns::{otp_ascii_shape, hex_color_shape, pattern_matches, regex_match, url_shape, HEX_COLOR_PATTERN, OTP_PATTERN, URL_PATTERN};
use crate::json::{json_parses, reformat_json};
use crate::text::{lemma_trim_absorbs_white_space, trim_end, ascii_lower, lemma_trim_start_keeps, lemma_trim_end_keeps, is_white_space, white_space, lowercase_of, to_lowercase, first_index, find_char_from, lemma_first_index, push_char, string_from, trim, trim_spec, utf8_len_below, chars_of, contains_char, contains_str, has_sub, trim_start, trim_start_index};

verus! {

/// One of the characters that code tends to be full of.
pub open spec fn is_code_symbol(c: char) -> bool {
    c == '{' || c == '}' || c == ';' || c == '(' || c == ')' || c == '=' || c == '<' || c == '>'
}

/// How many code symbols `s` holds.
pub open spec fn symbol_count(s: Seq<char>) -> nat
    decreases s.len(),
{
    if s.len() == 0 {
        0
    } else {
        symbol_count(s.drop_last()) + if is_code_symbol(s.last()) { 1nat } else { 0nat }
    }
}

/// `s` is non-empty and its first character is `c`.
pub open spec fn starts_with_char(s: Seq<char>, c: char) -> bool {
    s.len() > 0 && s[0] == c
}

/// Text with at least three code symbols that spans lines or is shorter
/// than 200 bytes of UTF-8.
pub open spec fn looks_codey(s: Seq<char>) -> bool {
    symbol_count(s) >= 3 && (s.contains('\n') || encode_utf8(s).len() < 200)
}

/// The language that `s` looks like, if it looks like code at all.
pub open spec fn language_of(s: Seq<char>) -> Option<Seq<char>> {
    if !looks_codey(s) {
        None
    } else if has_sub(s, "def "@) || (has_sub(s, "import "@) && has_sub(s, ":"@)) {
        Some("python"@)
    } else if has_sub(s, "=>"@) || has_sub(s, "const "@) || has_sub(s, "function "@)
        || has_sub(s, "useState"@) || has_sub(s, "useEffect"@) {
        Some("javascript"@)
    } else if has_sub(s, "fn "@) || has_sub(s, "let mut "@) || has_sub(s, "impl "@) {
        Some("rust"@)
    } else if has_sub(s, "public class"@) || has_sub(s, "System.out"@) {
        Some("java"@)
    } else if has_sub(s, "#include"@) || has_sub(s, "std::"@) {
        Some("cpp"@)
    } else if has_sub(s, "SELECT "@) || (has_sub(s, "select "@) && has_sub(s, " from "@)) {
        Some("sql"@)
    } else if starts_with_char(trim_start(s), '{') || starts_with_char(trim_start(s), '[') {
        Some("json"@)
    } else if symbol_count(s) >= 3 {
        Some("plaintext-code"@)
    } else {
        None
    }
}

/// Code symbols are counted character by character: the count of two texts
/// one after the other is the sum of their counts, and a single character
/// counts one exactly when it is one of `{ } ; ( ) = < >`.
pub proof fn lemma_symbol_count_rules(a: Seq<char>, b: Seq<char>, c: char)
    ensures
        symbol_count(a + b) == symbol_count(a) + symbol_count(b),
        symbol_count(seq![c]) == if c == '{' || c == '}' || c == ';' || c == '(' || c == ')' || c == '='
            || c == '<' || c == '>' { 1nat } else { 0nat },
    decreases b.len(),
{
    assert(seq![c].drop_last() =~= Seq::<char>::empty());
    assert(seq![c].last() == c);
    assert(symbol_count(Seq::<char>::empty()) == 0);
    if b.len() == 0 {
        assert(a + b =~= a);
    } else {
        assert((a + b).drop_last() =~= a + b.drop_last());
        lemma_symbol_count_rules(a, b.drop_last(), c);
    }
}

/// How the language guess decides, rule by rule: text that does not look
/// like code (fewer than 3 code symbols, or one line of 200 bytes or more)
/// has no language; otherwise the first rule whose words it holds wins:
/// python (`def ` or `import ` with `:`), javascript (`=>`, `const `,
/// `function `, `useState`, `useEffect`), rust (`fn `, `let mut `, `impl `),
/// java (`public class`, `System.out`), cpp (`#include`, `std::`), sql
/// (`SELECT `, or `select ` with ` from `), json (first non-blank character
/// `{` or `[`), and plaintext-code for the rest.
pub proof fn lemma_language_rules(s: Seq<char>)
    ensures
        !(symbol_count(s) >= 3 && (s.contains('\n') || encode_utf8(s).len() < 200)) ==> language_of(s) is None,
        ({
            let codey = symbol_count(s) >= 3 && (s.contains('\n') || encode_utf8(s).len() < 200);
            let py = has_sub(s, "def "@) || (has_sub(s, "import "@) && has_sub(s, ":"@));
            let js = has_sub(s, "=>"@) || has_sub(s, "const "@) || has_sub(s, "function "@)
                || has_sub(s, "useState"@) || has_sub(s, "useEffect"@);
            let rs = has_sub(s, "fn "@) || has_sub(s, "let mut "@) || has_sub(s, "impl "@);
            let java = has_sub(s, "public class"@) || has_sub(s, "System.out"@);
            let cpp = has_sub(s, "#include"@) || has_sub(s, "std::"@);
            let sql = has_sub(s, "SELECT "@) || (has_sub(s, "select "@) && has_sub(s, " from "@));
            let t = trim_start(s);
            let json = t.len() > 0 && (t[0] == '{' || t[0] == '[');
            &&& codey && py ==> language_of(s) == Some("python"@)
            &&& codey && !py && js ==> language_of(s) == Some("javascript"@)
            &&& codey && !py && !js && rs ==> language_of(s) == Some("rust"@)
            &&& codey && !py && !js && !rs && java ==> language_of(s) == Some("java"@)
            &&& codey && !py && !js && !rs && !java && cpp ==> language_of(s) == Some("cpp"@)
            &&& codey && !py && !js && !rs && !java && !cpp && sql ==> language_of(s) == Some("sql"@)
            &&& codey && !py && !js && !rs && !java && !cpp && !sql && json ==> language_of(s) == Some("json"@)
            &&& codey && !py && !js && !rs && !java && !cpp && !sql && !json ==> language_of(s) == Some(
                "plaintext-code"@,
            )
        }),
{
}

/// The view of an optional string slice.
pub open spec fn opt_str_view(o: Option<&str>) -> Option<Seq<char>> {
    match o {
        Some(s) => Some(s@),
        None => None,
    }
}

fn count_symbols(cs: &Vec<char>) -> (r: usize)
    ensures
        r == symbol_count(cs@),
{
    let n = cs.len();
    let mut count: usize = 0;
    let mut i: usize = 0;
    while i < n
        invariant
            n == cs@.len(),
            i <= n,
            count <= i,
            count == symbol_count(cs@.take(i as int)),
        decreases n - i,
    {
        let c = cs[i];
        assert(cs@.take(i + 1).drop_last() =~= cs@.take(i as int));
        if c == '{' || c == '}' || c == ';' || c == '(' || c == ')' || c == '=' || c == '<' || c == '>' {
            count = count + 1;
        }
        i = i + 1;
    }
    assert(cs@.take(n as int) =~= cs@);
    count
}

/// Very small language guesser: `None` where the text does not look like code.
pub fn detect_language(text: &str) -> (r: Option<&'static str>)
    ensures
        opt_str_view(r) == language_of(text@),
{
    let cs = chars_of(text);
    let multiline = contains_char(&cs, '\n');
    let symbols = count_symbols(&cs);
    let looks_like_code = symbols >= 3 && (multiline || utf8_len_below(&cs, 200));
    if !looks_like_code {
        return None;
    }
    if contains_str(&cs, "def ") || contains_str(&cs, "import ") && contains_str(&cs, ":") {
        Some("python")
    } else if contains_str(&cs, "=>") || contains_str(&cs, "const ") || contains_str(&cs, "function ")
        || contains_str(&cs, "useState") || contains_str(&cs, "useEffect") {
        Some("javascript")
    } else if contains_str(&cs, "fn ") || contains_str(&cs, "let mut ") || contains_str(&cs, "impl ") {
        Some("rust")
    } else if contains_str(&cs, "public class") || contains_str(&cs, "System.out") {
        Some("java")
    } else if contains_str(&cs, "#include") || contains_str(&cs, "std::") {
        Some("cpp")
    } else if contains_str(&cs, "SELECT ") || contains_str(&cs, "select ") && contains_str(&cs, " from ") {
        Some("sql")
    } else {
        let start = trim_start_index(&cs);
        assert(start < cs@.len() ==> trim_start(cs@)[0] == cs@[start as int]);
        if start < cs.len() && (cs[start] == '{' || cs[start] == '[') {
            Some("json")
        } else if symbols >= 3 {
            Some("plaintext-code")
        } else {
            None
        }
    }
}

/// An ASCII letter.
pub open spec fn is_ascii_letter(c: char) -> bool {
    ('a' <= c && c <= 'z') || ('A' <= c && c <= 'Z')
}

/// A color's hex form: the text itself where it starts with `#`, else `#`
/// before it.
pub open spec fn color_hex(t: Seq<char>) -> Seq<char> {
    if starts_with_char(t, '#') {
        t
    } else {
        seq!['#'] + t
    }
}

/// What follows the `n`-th `/` of `s`, or `None` where `s` has fewer than
/// `n` of them; `segment_after(s, n)` up to its first `/` is what
/// `s.split('/').nth(n)` gives.
pub open spec fn segment_after(s: Seq<char>, n: nat) -> Option<Seq<char>>
    decreases n,
{
    if n == 0 {
        Some(s)
    } else if first_index(s, '/') < s.len() {
        segment_after(s.skip(first_index(s, '/') + 1), (n - 1) as nat)
    } else {
        None
    }
}

/// The host of a url: its third `/`-separated field, or nothing where it has
/// fewer than three.
pub open spec fn url_host(t: Seq<char>) -> Seq<char> {
    match segment_after(t, 2) {
        Some(r) => r.take(first_index(r, '/')),
        None => Seq::empty(),
    }
}

/// The kind and metadata of trimmed text `t`, given whether it matches the
/// hex-color pattern, whether it matches the url pattern, and whether it
/// parses as JSON.
pub open spec fn classify_spec(t: Seq<char>, hex_match: bool, url_match: bool, json_ok: bool) -> (ClipType, MetaView) {
    if hex_match && (starts_with_char(t, '#') || exists|i: int| 0 <= i < t.len() && is_ascii_letter(#[trigger] t[i])) {
        (ClipType::Color, MetaView::Color(color_hex(t)))
    } else if url_match {
        (ClipType::Url, MetaView::Url(url_host(t)))
    } else if (starts_with_char(t, '{') || starts_with_char(t, '[')) && json_ok {
        (ClipType::Code, MetaView::Code("json"@))
    } else if let Some(lang) = language_of(t) {
        (ClipType::Code, MetaView::Code(lang))
    } else {
        (ClipType::Text, MetaView::Text(t.len()))
    }
}

/// How trimmed text is classified, rule by rule: a hex color with a `#` or
/// a letter is a color, its hex form the text with `#` in front unless it
/// has one; else a url is a url; else text starting with `{` or `[` that
/// parses as JSON is JSON code; else code in a guessed language; else plain
/// text, with its number of characters.
pub proof fn lemma_classify_rules(t: Seq<char>, hex_match: bool, url_match: bool, json_ok: bool)
    ensures
        ({
            let color = hex_match && ((t.len() > 0 && t[0] == '#') || exists|i: int|
                0 <= i < t.len() && (('a' <= #[trigger] t[i] && t[i] <= 'z') || ('A' <= t[i] && t[i] <= 'Z')));
            let json = (t.len() > 0 && (t[0] == '{' || t[0] == '[')) && json_ok;
            let r = classify_spec(t, hex_match, url_match, json_ok);
            &&& color && t.len() > 0 && t[0] == '#' ==> r == (ClipType::Color, MetaView::Color(t))
            &&& color && !(t.len() > 0 && t[0] == '#') ==> r == (ClipType::Color, MetaView::Color(seq!['#'] + t))
            &&& !color && url_match ==> r.0 == ClipType::Url
            &&& !color && !url_match && json ==> r == (ClipType::Code, MetaView::Code("json"@))
            &&& !color && !url_match && !json && language_of(t) is Some ==> r == (ClipType::Code, MetaView::Code(
                language_of(t)->0,
            ))
            &&& !color && !url_match && !json && language_of(t) is None ==> r == (ClipType::Text, MetaView::Text(
                t.len(),
            ))
        }),
{
}

/// The host of a url is what stands between its `//` and the next `/`:
/// for a scheme part and a host without `/`, followed by nothing or by a
/// path starting with `/`.
pub proof fn lemma_url_host_rule(scheme: Seq<char>, host: Seq<char>, path: Seq<char>)
    requires
        !scheme.contains('/'),
        !host.contains('/'),
        path.len() == 0 || path[0] == '/',
    ensures
        url_host(scheme + seq!['/', '/'] + host + path) == host,
{
    let t = scheme + seq!['/', '/'] + host + path;
    lemma_first_index(t, '/');
    assert(t[scheme.len() as int] == '/');
    assert forall|k: int| 0 <= k < scheme.len() implies t[k] != '/' by {
        assert(t[k] == scheme[k]);
    }
    let f1 = first_index(t, '/');
    assert(f1 == scheme.len());
    let s1 = t.skip(f1 + 1);
    lemma_first_index(s1, '/');
    assert(s1[0] == '/');
    assert(first_index(s1, '/') == 0);
    let s2 = s1.skip(1);
    assert(s2 =~= host + path);
    assert(segment_after(s2, 0) == Some(s2));
    assert(segment_after(s1, 1) == Some(s2));
    assert(segment_after(t, 2) == Some(s2));
    lemma_first_index(s2, '/');
    assert forall|k: int| 0 <= k < host.len() implies s2[k] != '/' by {
        assert(s2[k] == host[k]);
    }
    if path.len() > 0 {
        assert(s2[host.len() as int] == '/');
    }
    assert(first_index(s2, '/') == host.len());
    assert(s2.take(host.len() as int) =~= host);
}

/// A run of digits is a color only with a `#` before it, so that one-time
/// codes are not taken for colors; and a color's hex form always starts with
/// `#`.
pub proof fn lemma_color_needs_hash_or_letter(t: Seq<char>, hex_match: bool, url_match: bool, json_ok: bool)
    ensures
        (forall|i: int| 0 <= i < t.len() ==> is_ascii_digit(#[trigger] t[i])) && !starts_with_char(t, '#')
            ==> classify_spec(t, hex_match, url_match, json_ok).0 != ClipType::Color,
        classify_spec(t, hex_match, url_match, json_ok).1 matches MetaView::Color(hex)
            ==> starts_with_char(hex, '#'),
{
    if forall|i: int| 0 <= i < t.len() ==> is_ascii_digit(#[trigger] t[i]) {
        assert forall|i: int| 0 <= i < t.len() implies !is_ascii_letter(#[trigger] t[i]) by {
            assert(is_ascii_digit(t[i]));
        }
    }
    if !starts_with_char(t, '#') {
        assert((seq!['#'] + t)[0] == '#');
    }
}

/// The kind and metadata that `detect_kind` gives for `text`.
pub open spec fn detect_spec(text: Seq<char>) -> (ClipType, MetaView) {
    let t = trim_spec(text);
    classify_spec(
        t,
        hex_color_shape(t),
        url_shape(t),
        json_parses(t),
    )
}

/// Whitespace around a text changes neither its kind and metadata nor
/// whether it is sensitive.
pub proof fn lemma_surrounding_white_space_is_ignored(w1: Seq<char>, x: Seq<char>, w2: Seq<char>)
    requires
        forall|k: int| 0 <= k < w1.len() ==> is_white_space(#[trigger] w1[k]),
        forall|k: int| 0 <= k < w2.len() ==> is_white_space(#[trigger] w2[k]),
    ensures
        detect_spec(w1 + x + w2) == detect_spec(x),
        sensitive_spec(w1 + x + w2) == sensitive_spec(x),
{
    lemma_trim_absorbs_white_space(w1, x, w2);
}

fn has_ascii_letter(cs: &Vec<char>) -> (r: bool)
    ensures
        r == exists|i: int| 0 <= i < cs@.len() && is_ascii_letter(#[trigger] cs@[i]),
{
    let n = cs.len();
    let mut i: usize = 0;
    while i < n
        invariant
            n == cs@.len(),
            i <= n,
            forall|k: int| 0 <= k < i ==> !is_ascii_letter(#[trigger] cs@[k]),
        decreases n - i,
    {
        let c = cs[i];
        if ('a' <= c && c <= 'z') || ('A' <= c && c <= 'Z') {
            assert(is_ascii_letter(cs@[i as int]));
            return true;
        }
        i = i + 1;
    }
    false
}

/// The host of the url `cs`, as `url_host` says.
fn host_of(cs: &Vec<char>) -> (r: String)
    ensures
        r@ == url_host(cs@),
{
    let n = cs.len();
    let p1 = find_char_from(cs, 0, '/');
    let ghost s = cs@;
    proof {
        assert(cs@.skip(0) =~= s);
        lemma_first_index(s, '/');
    }
    if p1 == n {
        return String::new();
    }
    let p2 = find_char_from(cs, p1 + 1, '/');
    let ghost s1 = s.skip(p1 + 1);
    proof {
        lemma_first_index(s1, '/');
    }
    if p2 == n {
        assert(segment_after(s1, 1) == None::<Seq<char>>);
        return String::new();
    }
    let p3 = find_char_from(cs, p2 + 1, '/');
    let ghost s2 = s.skip(p2 + 1);
    proof {
        assert(s1.skip(first_index(s1, '/') + 1) =~= s2);
        assert(segment_after(s2, 0) == Some(s2));
        assert(segment_after(s1, 1) == Some(s2));
        assert(segment_after(s, 2) == Some(s2));
        assert(s2.take(first_index(s2, '/')) =~= s.subrange(p2 + 1, p3 as int));
    }
    string_from(cs, p2 + 1, p3)
}

/// The kind and metadata of already trimmed text, given the answers of the
/// hex-color pattern, of the url pattern, and of the JSON parser.
pub fn classify_trimmed(t: &str, hex_match: bool, url_match: bool, json_ok: bool) -> (r: (ClipType, ClipMeta))
    ensures
        (r.0, r.1@) == classify_spec(t@, hex_match, url_match, json_ok),
{
    let cs = chars_of(t);
    let n = cs.len();
    let starts_hash = n > 0 && cs[0] == '#';
    if hex_match && (starts_hash || has_ascii_letter(&cs)) {
        let hex = if starts_hash {
            string_from(&cs, 0, n)
        } else {
            let mut h = String::new();
            push_char(&mut h, '#');
            h.append(t);
            h
        };
        proof {
            assert(cs@.subrange(0, n as int) =~= cs@);
        }
        return (ClipType::Color, ClipMeta::Color { hex });
    }
    if url_match {
        return (ClipType::Url, ClipMeta::Url { host: host_of(&cs) });
    }
    if n > 0 && (cs[0] == '{' || cs[0] == '[') && json_ok {
        return (ClipType::Code, ClipMeta::Code { language: String::from_str("json") });
    }
    match detect_language(t) {
        Some(lang) => (ClipType::Code, ClipMeta::Code { language: String::from_str(lang) }),
        None => (ClipType::Text, ClipMeta::Text { chars: n }),
    }
}

/// Heuristically classify a piece of text and produce the metadata that goes
/// with its kind.
pub fn detect_kind(text: &str) -> (r: (ClipType, ClipMeta))
    ensures
        (r.0, r.1@) == detect_spec(text@),
{
    let trimmed = trim(text);
    let t = trimmed.as_str();
    let hex_match = pattern_matches(HEX_COLOR_PATTERN, t);
    let url_match = pattern_matches(URL_PATTERN, t);
    let cs = chars_of(t);
    let json_ok = cs.len() > 0 && (cs[0] == '{' || cs[0] == '[') && reformat_json(t).is_ok();
    classify_trimmed(t, hex_match, url_match, json_ok)
}

/// An ASCII decimal digit.
pub open spec fn is_ascii_digit(c: char) -> bool {
    '0' <= c && c <= '9'
}

/// The value of an ASCII digit as `char::to_digit(10)` gives it, and 0 for
/// any other character.
pub open spec fn digit_value(c: char) -> nat {
    if is_ascii_digit(c) {
        (c as int - 48) as nat
    } else {
        0
    }
}

/// One Luhn term: the digit, or where it is doubled, twice the digit less 9
/// when that exceeds 9.
pub open spec fn luhn_term(c: char, doubled: bool) -> nat {
    let d = digit_value(c);
    if doubled {
        if 2 * d > 9 {
            (2 * d - 9) as nat
        } else {
            2 * d
        }
    } else {
        d
    }
}

/// The Luhn sum of `s`: every second digit, counting from the last one
/// leftwards, is doubled.
pub open spec fn luhn_sum(s: Seq<char>) -> nat
    decreases s.len(),
{
    if s.len() == 0 {
        0
    } else {
        luhn_term(s[0], (s.len() - 1) % 2 == 1) + luhn_sum(s.drop_first())
    }
}

/// The Luhn check: the Luhn sum is a multiple of ten.
pub open spec fn luhn_ok(s: Seq<char>) -> bool {
    luhn_sum(s) % 10 == 0
}

pub proof fn lemma_luhn_sum_bound(s: Seq<char>)
    ensures
        luhn_sum(s) <= 9 * s.len(),
    decreases s.len(),
{
    if s.len() > 0 {
        lemma_luhn_sum_bound(s.drop_first());
    }
}

proof fn lemma_luhn_suffix(s: Seq<char>, i: int)
    requires
        0 <= i <= s.len(),
    ensures
        luhn_sum(s.subrange(i, s.len() as int)) <= luhn_sum(s),
    decreases i,
{
    if i == 0 {
        assert(s.subrange(0, s.len() as int) =~= s);
    } else {
        lemma_luhn_suffix(s, i - 1);
        assert(s.subrange(i - 1, s.len() as int).drop_first() =~= s.subrange(i, s.len() as int));
    }
}

/// The Luhn checksum test used on card numbers.
pub fn luhn_valid(digits: &str) -> (r: bool)
    requires
        luhn_sum(digits@) <= u32::MAX,
    ensures
        r == luhn_ok(digits@),
{
    let cs = chars_of(digits);
    let n = cs.len();
    let mut sum: u32 = 0;
    let mut alt = false;
    let mut i = n;
    proof {
        assert(cs@.subrange(n as int, n as int) =~= Seq::<char>::empty());
    }
    while i > 0
        invariant
            n == cs@.len(),
            i <= n,
            luhn_sum(cs@) <= u32::MAX,
            sum == luhn_sum(cs@.subrange(i as int, n as int)),
            alt == ((n - i) % 2 == 1),
        decreases i,
    {
        let c = cs[i - 1];
        let mut d: u32 = if '0' <= c && c <= '9' { (c as u32) - 48 } else { 0 };
        if alt {
            d = d * 2;
            if d > 9 {
                d = d - 9;
            }
        }
        proof {
            assert(cs@.subrange(i - 1, n as int).drop_first() =~= cs@.subrange(i as int, n as int));
            assert(cs@.subrange(i - 1, n as int)[0] == c);
            lemma_luhn_suffix(cs@, i - 1);
        }
        sum = sum + d;
        alt = !alt;
        i = i - 1;
    }
    proof {
        assert(cs@.subrange(0, n as int) =~= cs@);
    }
    sum % 10 == 0
}

/// A leading zero changes neither the Luhn sum nor the Luhn check.
pub proof fn lemma_leading_zero_keeps_luhn(s: Seq<char>)
    ensures
        luhn_sum(seq!['0'] + s) == luhn_sum(s),
        luhn_ok(seq!['0'] + s) == luhn_ok(s),
{
    assert((seq!['0'] + s)[0] == '0');
    assert((seq!['0'] + s).drop_first() =~= s);
}

/// The Luhn sum, digit by digit from the left: a digit `d` in front of `s`
/// adds `d` where `s` has even length and `2d` (less 9 above 9) where it has
/// odd length, so that every second digit from the right is doubled.
pub proof fn lemma_luhn_sum_front(c: char, s: Seq<char>)
    requires
        '0' <= c <= '9',
    ensures
        luhn_sum(seq![c] + s) == luhn_sum(s) + (if s.len() % 2 == 1 {
            if 2 * (c as int - 48) > 9 { 2 * (c as int - 48) - 9 } else { 2 * (c as int - 48) }
        } else {
            c as int - 48
        }),
{
    assert((seq![c] + s)[0] == c);
    assert((seq![c] + s).drop_first() =~= s);
}

/// The ASCII digits of `s`, in order.
pub open spec fn ascii_digits(s: Seq<char>) -> Seq<char>
    decreases s.len(),
{
    if s.len() == 0 {
        Seq::empty()
    } else if is_ascii_digit(s.last()) {
        ascii_digits(s.drop_last()).push(s.last())
    } else {
        ascii_digits(s.drop_last())
    }
}

/// The digits of a text are all its ASCII digits, zeros included, in order:
/// the text filtered to `0` to `9`.
pub proof fn lemma_ascii_digits_are_filter(s: Seq<char>)
    ensures
        ascii_digits(s) == s.filter(|c: char| '0' <= c && c <= '9'),
    decreases s.len(),
{
    reveal_with_fuel(Seq::<char>::filter, 1);
    if s.len() > 0 {
        lemma_ascii_digits_are_filter(s.drop_last());
    } else {
        assert(s.filter(|c: char| '0' <= c && c <= '9') =~= Seq::<char>::empty());
    }
}

/// Text made only of ASCII digits, spaces and dashes, that starts and ends
/// with a digit, and whose 13 to 19 digits pass the Luhn check, is a card
/// number and is sensitive.
pub proof fn lemma_card_number_is_sensitive(s: Seq<char>)
    requires
        forall|i: int| 0 <= i < s.len() ==> ('0' <= #[trigger] s[i] && s[i] <= '9') || s[i] == ' ' || s[i] == '-',
        s.len() > 0,
        '0' <= s[0] <= '9',
        '0' <= s.last() <= '9',
        13 <= s.filter(|c: char| '0' <= c && c <= '9').len() <= 19,
        luhn_sum(s.filter(|c: char| '0' <= c && c <= '9')) % 10 == 0,
    ensures
        card_number_spec(s),
        sensitive_spec(s),
{
    lemma_ascii_digits_are_filter(s);
    assert(!is_white_space(s[0]));
    assert(!is_white_space(s.last()));
    assert(trim_start(s) == s);
    assert(trim_end(s) == s);
}

/// Text made only of ASCII digits, spaces and dashes, holding 13 to 19 digits
/// that pass the Luhn check: a card number, optionally grouped.
pub open spec fn card_number_spec(t: Seq<char>) -> bool {
    &&& forall|i: int| 0 <= i < t.len() ==> is_ascii_digit(#[trigger] t[i]) || t[i] == ' ' || t[i] == '-'
    &&& 13 <= ascii_digits(t).len() <= 19
    &&& luhn_ok(ascii_digits(t))
}

/// A card number is exactly text of ASCII digits, spaces and dashes whose
/// digits, all of them in order, number 13 to 19 and pass the Luhn check.
pub proof fn lemma_card_number_rules(t: Seq<char>)
    ensures
        card_number_spec(t) <==> ({
            let d = t.filter(|c: char| '0' <= c && c <= '9');
            &&& forall|i: int| 0 <= i < t.len() ==> ('0' <= #[trigger] t[i] && t[i] <= '9') || t[i] == ' ' || t[i] == '-'
            &&& 13 <= d.len() <= 19
            &&& luhn_sum(d) % 10 == 0
        }),
{
    lemma_ascii_digits_are_filter(t);
}

/// Whether already trimmed text looks like a card number.
pub fn card_number_like(t: &str) -> (r: bool)
    ensures
        r == card_number_spec(t@),
{
    let cs = chars_of(t);
    let n = cs.len();
    let mut digits = String::new();
    let mut only_card_chars = true;
    let mut i: usize = 0;
    while i < n
        invariant
            n == cs@.len(),
            i <= n,
            digits@ == ascii_digits(cs@.take(i as int)),
            only_card_chars <==> forall|k: int| 0 <= k < i ==> is_ascii_digit(#[trigger] cs@[k]) || cs@[k] == ' ' || cs@[k] == '-',
        decreases n - i,
    {
        let c = cs[i];
        assert(cs@.take(i + 1).drop_last() =~= cs@.take(i as int));
        if '0' <= c && c <= '9' {
            push_char(&mut digits, c);
        } else if c != ' ' && c != '-' {
            only_card_chars = false;
        }
        i = i + 1;
    }
    assert(cs@.take(n as int) =~= cs@);
    let count = digits.as_str().unicode_len();
    if only_card_chars && 13 <= count && count <= 19 {
        proof {
            lemma_luhn_sum_bound(digits@);
        }
        luhn_valid(digits.as_str())
    } else {
        false
    }
}

/// Whether lowercased text holds a marker of a secret: a password, a key, a
/// bearer token or a PEM block.
pub open spec fn has_secret_marker(lower: Seq<char>) -> bool {
    ||| has_sub(lower, "password"@)
    ||| has_sub(lower, "passwd"@)
    ||| has_sub(lower, "secret"@)
    ||| has_sub(lower, "api_key"@)
    ||| has_sub(lower, "apikey"@)
    ||| has_sub(lower, "bearer "@)
    ||| has_sub(lower, "ssh-rsa"@)
    ||| has_sub(lower, "-----begin"@)
}

/// The secret markers, one by one: lowercased text holds a marker exactly
/// when it holds `password`, `passwd`, `secret`, `api_key`, `apikey`,
/// `bearer ` (with its space), `ssh-rsa` or `-----begin`.
pub proof fn lemma_secret_marker_rules(lower: Seq<char>)
    ensures
        has_secret_marker(lower) <==> (has_sub(lower, "password"@) || has_sub(lower, "passwd"@) || has_sub(
            lower,
            "secret"@,
        ) || has_sub(lower, "api_key"@) || has_sub(lower, "apikey"@) || has_sub(lower, "bearer "@) || has_sub(
            lower,
            "ssh-rsa"@,
        ) || has_sub(lower, "-----begin"@)),
{
}

/// Whether lowercased text holds a marker of a secret.
pub fn contains_secret_marker(lower: &str) -> (r: bool)
    ensures
        r == has_secret_marker(lower@),
{
    let cs = chars_of(lower);
    contains_str(&cs, "password") || contains_str(&cs, "passwd") || contains_str(&cs, "secret")
        || contains_str(&cs, "api_key") || contains_str(&cs, "apikey") || contains_str(&cs, "bearer ")
        || contains_str(&cs, "ssh-rsa") || contains_str(&cs, "-----begin")
}

/// What `is_sensitive` answers for `text`: once trimmed, it is a one-time
/// code, a card number, or its lowercase form holds a secret marker.
pub open spec fn sensitive_spec(text: Seq<char>) -> bool {
    let t = trim_spec(text);
    ||| regex_match(OTP_PATTERN@, t) == Some(true)
    ||| card_number_spec(t)
    ||| has_secret_marker(lowercase_of(t))
}

/// The ASCII lowercase of a text, character by character.
pub open spec fn ascii_lowercase(s: Seq<char>) -> Seq<char> {
    s.map_values(|c: char| ascii_lower(c))
}

/// What `is_sensitive` answers for ASCII text, where a one-time code is 6 to
/// 8 ASCII digits and lowercasing is ASCII lowercasing.
pub open spec fn sensitive_ascii_spec(text: Seq<char>) -> bool {
    let t = trim_spec(text);
    ||| otp_ascii_shape(t)
    ||| card_number_spec(t)
    ||| has_secret_marker(ascii_lowercase(t))
}

/// Detect content that looks sensitive (passwords, OTPs, card numbers, keys).
pub fn is_sensitive(text: &str) -> (r: bool)
    ensures
        r == sensitive_spec(text@),
        is_ascii_chars(text@) ==> r == sensitive_ascii_spec(text@),
        forall|a: Seq<char>, x: Seq<char>, b: Seq<char>|
            #![trigger a + x + b]
            text@ == a + x + b && is_ascii_chars(x) && is_secret_word(ascii_lowercase(x)) ==> r,
{
    let trimmed = trim(text);
    let t = trimmed.as_str();
    proof {
        if is_ascii_chars(text@) {
            let (i, j) = choose|i: int, j: int| 0 <= i <= j <= text@.len() && trimmed@ == text@.subrange(i, j);
            assert forall|k: int| 0 <= k < trimmed@.len() implies '\0' <= #[trigger] trimmed@[k] <= '\u{7f}' by {
                assert(trimmed@[k] == text@[i + k]);
            }
        }
    }
    if pattern_matches(OTP_PATTERN, t) {
        return true;
    }
    if card_number_like(t) {
        return true;
    }
    let lower = to_lowercase(t);
    proof {
        assert forall|a: Seq<char>, x: Seq<char>, b: Seq<char>|
            text@ == a + x + b && is_ascii_chars(x) && is_secret_word(ascii_lowercase(x)) implies has_secret_marker(
            lower@,
        ) by {
            let m = ascii_lowercase(x);
            lemma_secret_word_ends(m);
            assert(m[0] == ascii_lower(x[0]));
            assert(m.last() == ascii_lower(x.last()));
            lemma_trim_keeps_run(a, x, b);
            let (a2, b2) = choose|a2: Seq<char>, b2: Seq<char>| trim_spec(a + x + b) == a2 + x + b2;
            assert(t@ == a2 + x + b2);
            assert(has_sub(lower@, m));
        }
    }
    contains_secret_marker(lower.as_str())
}

/// The secret markers that hold no whitespace at either end.
pub open spec fn is_secret_word(m: Seq<char>) -> bool {
    ||| m == "password"@
    ||| m == "passwd"@
    ||| m == "secret"@
    ||| m == "api_key"@
    ||| m == "apikey"@
    ||| m == "ssh-rsa"@
    ||| m == "-----begin"@
}

proof fn lemma_secret_word_ends(m: Seq<char>)
    requires
        is_secret_word(m),
    ensures
        m.len() > 0,
        !is_white_space(m[0]),
        !is_white_space(m.last()),
{
    reveal_strlit("password");
    reveal_strlit("passwd");
    reveal_strlit("secret");
    reveal_strlit("api_key");
    reveal_strlit("apikey");
    reveal_strlit("ssh-rsa");
    reveal_strlit("-----begin");
    if m == "password"@ {
        assert(m[0] == 'p' && m.last() == 'd');
    } else if m == "passwd"@ {
        assert(m[0] == 'p' && m.last() == 'd');
    } else if m == "secret"@ {
        assert(m[0] == 's' && m.last() == 't');
    } else if m == "api_key"@ {
        assert(m[0] == 'a' && m.last() == 'y');
    } else if m == "apikey"@ {
        assert(m[0] == 'a' && m.last() == 'y');
    } else if m == "ssh-rsa"@ {
        assert(m[0] == 's' && m.last() == 'a');
    } else {
        assert(m[0] == '-' && m.last() == 'n');
    }
}

/// Trimming keeps a run whose first and last characters are not
/// whitespace.
pub proof fn lemma_trim_keeps_run(a: Seq<char>, x: Seq<char>, b: Seq<char>)
    requires
        x.len() > 0,
        !is_white_space(x[0]),
        !is_white_space(x.last()),
    ensures
        exists|a2: Seq<char>, b2: Seq<char>| trim_spec(a + x + b) == a2 + x + b2,
{
    let s = a + x + b;
    let k0 = a.len() as int;
    let k1 = a.len() + x.len() - 1;
    assert(s[k0] == x[0]);
    assert(s[k1] == x.last());
    lemma_trim_start_keeps(s, k0);
    let i = choose|i: int| 0 <= i <= k0 && trim_start(s) == s.skip(i);
    let u = s.skip(i);
    assert(u[k1 - i] == s[k1]);
    lemma_trim_end_keeps(u, k1 - i);
    let j = choose|j: int| k1 - i < j <= u.len() && trim_end(u) == u.take(j);
    let t = u.take(j);
    let p = k0 - i;
    let a2 = t.take(p);
    let b2 = t.skip(p + x.len());
    assert(t =~= a2 + x + b2) by {
        assert forall|q: int| 0 <= q < x.len() implies t[p + q] == x[q] by {
            assert(t[p + q] == s[k0 + q]);
        }
    }
}

/// Folding text into one line, character by character: the line so far, and
/// whether a space is owed before the next word. Whitespace runs become one
/// space between words and vanish at either end, as
/// `split_whitespace().collect::<Vec<_>>().join(" ")` makes them.
pub open spec fn one_line_state(s: Seq<char>) -> (Seq<char>, bool)
    decreases s.len(),
{
    if s.len() == 0 {
        (Seq::empty(), false)
    } else {
        let (out, pending) = one_line_state(s.drop_last());
        let c = s.last();
        if is_white_space(c) {
            (out, out.len() > 0)
        } else if pending {
            (out.push(' ').push(c), false)
        } else {
            (out.push(c), false)
        }
    }
}

/// The words of `s`, joined by single spaces.
pub open spec fn one_line(s: Seq<char>) -> Seq<char> {
    one_line_state(s).0
}

/// The ellipsis that marks a cut preview.
pub open spec fn ellipsis() -> char {
    '\u{2026}'
}

/// A preview of `s`: its single-line form, cut to `max` characters and
/// marked with an ellipsis where it was longer.
pub open spec fn preview_spec(s: Seq<char>, max: nat) -> Seq<char> {
    let line = one_line(s);
    if line.len() > max {
        line.take(max as int).push(ellipsis())
    } else {
        line
    }
}

/// Build a short single-line preview for list rendering.
pub fn make_preview(text: &str, max: usize) -> (r: String)
    ensures
        r@ == preview_spec(text@, max as nat),
{
    let cs = chars_of(text);
    let n = cs.len();
    let mut out: Vec<char> = Vec::new();
    let mut pending = false;
    let mut i: usize = 0;
    while i < n
        invariant
            n == cs@.len(),
            i <= n,
            (out@, pending) == one_line_state(cs@.take(i as int)),
        decreases n - i,
    {
        let c = cs[i];
        assert(cs@.take(i + 1).drop_last() =~= cs@.take(i as int));
        assert(cs@.take(i + 1).last() == c);
        if white_space(c) {
            pending = out.len() > 0;
        } else {
            if pending {
                out.push(' ');
            }
            out.push(c);
            pending = false;
        }
        i = i + 1;
    }
    assert(cs@.take(n as int) =~= cs@);
    let count = out.len();
    if count > max {
        let mut cut = string_from(&out, 0, max);
        push_char(&mut cut, '\u{2026}');
        assert(out@.subrange(0, max as int) =~= out@.take(max as int));
        cut
    } else {
        assert(out@.subrange(0, count as int) =~= out@);
        string_from(&out, 0, count)
    }
}

/// A line with no whitespace but single spaces between other characters.
pub open spec fn is_single_line(line: Seq<char>) -> bool {
    &&& forall|k: int| 0 <= k < line.len() && is_white_space(#[trigger] line[k]) ==> line[k] == ' '
    &&& line.len() > 0 ==> line[0] != ' ' && line.last() != ' '
    &&& forall|k: int| 0 <= k < line.len() - 1 && #[trigger] line[k] == ' ' ==> line[k + 1] != ' '
}

proof fn lemma_one_line_state_shape(s: Seq<char>)
    ensures
        is_single_line(one_line_state(s).0),
        one_line_state(s).1 ==> one_line_state(s).0.len() > 0,
        one_line_state(s).0.len() <= 2 * s.len(),
    decreases s.len(),
{
    if s.len() > 0 {
        lemma_one_line_state_shape(s.drop_last());
        let (out, pending) = one_line_state(s.drop_last());
        let c = s.last();
        if !is_white_space(c) {
            let next = one_line_state(s).0;
            if pending {
                assert(next =~= out.push(' ').push(c));
                assert forall|k: int| 0 <= k < next.len() - 1 && #[trigger] next[k] == ' ' implies next[k + 1] != ' ' by {
                    if k < out.len() - 1 {
                        assert(next[k] == out[k] && next[k + 1] == out[k + 1]);
                    } else if k == out.len() - 1 {
                        assert(next[k] == out.last());
                    }
                }
                assert forall|k: int| 0 <= k < next.len() && is_white_space(#[trigger] next[k]) implies next[k] == ' ' by {
                    if k < out.len() {
                        assert(next[k] == out[k]);
                    }
                }
            } else {
                assert(next =~= out.push(c));
                assert forall|k: int| 0 <= k < next.len() - 1 && #[trigger] next[k] == ' ' implies next[k + 1] != ' ' by {
                    if k < out.len() - 1 {
                        assert(next[k] == out[k] && next[k + 1] == out[k + 1]);
                    }
                }
                assert forall|k: int| 0 <= k < next.len() && is_white_space(#[trigger] next[k]) implies next[k] == ' ' by {
                    if k < out.len() {
                        assert(next[k] == out[k]);
                    }
                }
            }
        }
    }
}

/// Folding text into one line, picking up from the state `st`.
pub open spec fn fold_from(st: (Seq<char>, bool), y: Seq<char>) -> (Seq<char>, bool)
    decreases y.len(),
{
    if y.len() == 0 {
        st
    } else {
        let (out, pending) = fold_from(st, y.drop_last());
        let c = y.last();
        if is_white_space(c) {
            (out, out.len() > 0)
        } else if pending {
            (out.push(' ').push(c), false)
        } else {
            (out.push(c), false)
        }
    }
}

proof fn lemma_fold_concat(x: Seq<char>, y: Seq<char>)
    ensures
        one_line_state(x + y) == fold_from(one_line_state(x), y),
    decreases y.len(),
{
    if y.len() == 0 {
        assert(x + y =~= x);
    } else {
        assert((x + y).drop_last() =~= x + y.drop_last());
        assert((x + y).last() == y.last());
        lemma_fold_concat(x, y.drop_last());
    }
}

proof fn lemma_fold_white(st: (Seq<char>, bool), w: Seq<char>)
    requires
        w.len() > 0,
        forall|k: int| 0 <= k < w.len() ==> is_white_space(#[trigger] w[k]),
    ensures
        fold_from(st, w) == (st.0, st.0.len() > 0),
    decreases w.len(),
{
    let v = w.drop_last();
    assert(w.last() == w[w.len() - 1]);
    if v.len() > 0 {
        assert forall|k: int| 0 <= k < v.len() implies is_white_space(#[trigger] v[k]) by {
            assert(v[k] == w[k]);
        }
        lemma_fold_white(st, v);
    } else {
        assert(fold_from(st, v) == st);
    }
}

proof fn lemma_one_line_grows(y: Seq<char>)
    requires
        y.len() > 0,
        !is_white_space(y[0]),
    ensures
        one_line_state(y).0.len() > 0,
    decreases y.len(),
{
    let v = y.drop_last();
    if v.len() > 0 {
        assert(v[0] == y[0]);
        lemma_one_line_grows(v);
    } else {
        assert(y.last() == y[0]);
    }
}

proof fn lemma_fold_word_start(o: Seq<char>, p: bool, y: Seq<char>)
    requires
        y.len() > 0,
        !is_white_space(y[0]),
    ensures
        fold_from((o, p), y) == ((if p { o.push(' ') } else { o }) + one_line_state(y).0, one_line_state(y).1),
    decreases y.len(),
{
    let pre = if p { o.push(' ') } else { o };
    let v = y.drop_last();
    let c = y.last();
    if v.len() == 0 {
        assert(c == y[0]);
        assert(fold_from((o, p), v) == (o, p));
        assert(one_line_state(v) == (Seq::<char>::empty(), false));
        assert(one_line_state(y).0 =~= seq![c]);
        if p {
            assert(o.push(' ').push(c) =~= pre + seq![c]);
        } else {
            assert(o.push(c) =~= pre + seq![c]);
        }
    } else {
        assert(v[0] == y[0]);
        lemma_fold_word_start(o, p, v);
        lemma_one_line_grows(v);
        let (ov, pv) = one_line_state(v);
        if !is_white_space(c) {
            if pv {
                assert((pre + ov).push(' ').push(c) =~= pre + ov.push(' ').push(c));
            } else {
                assert((pre + ov).push(c) =~= pre + ov.push(c));
            }
        }
    }
}

/// A word, a run of characters with no whitespace, is its own single-line
/// form.
pub proof fn lemma_one_line_of_word(w: Seq<char>)
    requires
        forall|k: int| 0 <= k < w.len() ==> !is_white_space(#[trigger] w[k]),
    ensures
        one_line(w) == w,
        one_line_state(w).1 == false,
    decreases w.len(),
{
    if w.len() > 0 {
        let v = w.drop_last();
        assert forall|k: int| 0 <= k < v.len() implies !is_white_space(#[trigger] v[k]) by {
            assert(v[k] == w[k]);
        }
        assert(!is_white_space(w[w.len() - 1]));
        lemma_one_line_of_word(v);
        assert(v.push(w.last()) =~= w);
    }
}

/// Any run of whitespace, tabs and line breaks included, between text and a
/// word becomes exactly one space in the single-line form.
pub proof fn lemma_one_line_joins_with_one_space(x: Seq<char>, ws: Seq<char>, y: Seq<char>)
    requires
        one_line(x).len() > 0,
        ws.len() > 0,
        forall|k: int| 0 <= k < ws.len() ==> is_white_space(#[trigger] ws[k]),
        y.len() > 0,
        !is_white_space(y[0]),
    ensures
        one_line(x + ws + y) == one_line(x) + seq![' '] + one_line(y),
{
    lemma_fold_concat(x + ws, y);
    lemma_fold_concat(x, ws);
    lemma_fold_white(one_line_state(x), ws);
    lemma_fold_word_start(one_line(x), true, y);
    assert(one_line(x).push(' ') =~= one_line(x) + seq![' ']);
}

/// Two words with whitespace between them come out as the two words joined
/// by one space.
pub proof fn lemma_one_line_of_two_words(w1: Seq<char>, ws: Seq<char>, w2: Seq<char>)
    requires
        w1.len() > 0,
        w2.len() > 0,
        forall|k: int| 0 <= k < w1.len() ==> !is_white_space(#[trigger] w1[k]),
        forall|k: int| 0 <= k < w2.len() ==> !is_white_space(#[trigger] w2[k]),
        ws.len() > 0,
        forall|k: int| 0 <= k < ws.len() ==> is_white_space(#[trigger] ws[k]),
    ensures
        one_line(w1 + ws + w2) == one_line(w1) + seq![' '] + one_line(w2),
        one_line(w1 + ws + w2) == w1 + seq![' '] + w2,
{
    lemma_one_line_of_word(w1);
    lemma_one_line_of_word(w2);
    lemma_one_line_joins_with_one_space(w1, ws, w2);
}

/// No whitespace but single spaces between other characters, and no space
/// at the start.
pub open spec fn is_folded(s: Seq<char>) -> bool {
    &&& forall|k: int| 0 <= k < s.len() && is_white_space(#[trigger] s[k]) ==> s[k] == ' '
    &&& s.len() > 0 ==> s[0] != ' '
    &&& forall|k: int| 0 <= k < s.len() - 1 && #[trigger] s[k] == ' ' ==> s[k + 1] != ' '
}

proof fn lemma_folded_is_fixed(s: Seq<char>)
    requires
        is_folded(s),
    ensures
        one_line_state(s) == (if s.len() > 0 && s.last() == ' ' { (s.drop_last(), true) } else { (s, false) }),
    decreases s.len(),
{
    if s.len() > 0 {
        let t = s.drop_last();
        assert forall|k: int| 0 <= k < t.len() - 1 && #[trigger] t[k] == ' ' implies t[k + 1] != ' ' by {
            assert(s[k] == t[k] && s[k + 1] == t[k + 1]);
        }
        assert forall|k: int| 0 <= k < t.len() && is_white_space(#[trigger] t[k]) implies t[k] == ' ' by {
            assert(s[k] == t[k]);
        }
        if t.len() > 0 {
            assert(t[0] == s[0]);
        }
        lemma_folded_is_fixed(t);
        let c = s.last();
        if is_white_space(c) {
            assert(c == ' ');
            if t.len() > 0 {
                assert(s[t.len() - 1] == t.last());
            }
        } else if t.len() > 0 && t.last() == ' ' {
            assert(s[t.len() - 1] == ' ');
            assert(t.len() >= 2);
            assert(t.drop_last().push(' ').push(c) =~= s);
        } else {
            assert(t.push(c) =~= s);
        }
    }
}

/// A preview begins with the single-line text, as much of it as fits in
/// `max` characters; it is that whole text where it fits, and otherwise
/// exactly `max` characters of it and an ellipsis.
pub proof fn lemma_preview_rules(text: Seq<char>, max: nat)
    ensures
        one_line(text).len() <= max ==> preview_spec(text, max) == one_line(text),
        one_line(text).len() > max ==> preview_spec(text, max).len() == max + 1
            && preview_spec(text, max).last() == '\u{2026}'
            && forall|k: int| 0 <= k < max ==> #[trigger] preview_spec(text, max)[k] == one_line(text)[k],
{
}

/// A preview is its own preview.
pub proof fn lemma_preview_is_own_preview(text: Seq<char>, max: nat)
    ensures
        preview_spec(preview_spec(text, max), max) == preview_spec(text, max),
{
    lemma_one_line_state_shape(text);
    let line = one_line(text);
    let p = preview_spec(text, max);
    if line.len() > max {
        assert forall|k: int| 0 <= k < p.len() && is_white_space(#[trigger] p[k]) implies p[k] == ' ' by {
            if k < max {
                assert(p[k] == line[k]);
            }
        }
        if max > 0 {
            assert(p[0] == line[0]);
        }
        assert forall|k: int| 0 <= k < p.len() - 1 && #[trigger] p[k] == ' ' implies p[k + 1] != ' ' by {
            assert(p[k] == line[k]);
            if k + 1 < max {
                assert(p[k + 1] == line[k + 1]);
            }
        }
        lemma_folded_is_fixed(p);
        assert(p.take(max as int).push(ellipsis()) =~= p);
    } else {
        lemma_folded_is_fixed(line);
    }
}

/// A preview is a single line, at most `max` characters long plus the
/// ellipsis, and it is the whole single-line text where that fits.
pub proof fn lemma_preview_is_short_single_line(text: Seq<char>, max: nat)
    ensures
        preview_spec(text, max).len() <= max + 1,
        forall|k: int| 0 <= k < preview_spec(text, max).len() && is_white_space(#[trigger] preview_spec(text, max)[k])
            ==> preview_spec(text, max)[k] == ' ',
        !preview_spec(text, max).contains('\n'),
        one_line(text).len() <= max ==> preview_spec(text, max) == one_line(text),
{
    lemma_one_line_state_shape(text);
    let line = one_line(text);
    let p = preview_spec(text, max);
    if line.len() > max {
        assert forall|k: int| 0 <= k < p.len() && is_white_space(#[trigger] p[k]) implies p[k] == ' ' by {
            if k < max {
                assert(p[k] == line[k]);
            }
        }
    }
    if p.contains('\n') {
        let k = choose|k: int| 0 <= k < p.len() && p[k] == '\n';
        assert(is_white_space(p[k]));
    }
}

} // verus!
