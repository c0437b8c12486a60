//! The commands offered to the user interface: Power-Paste transforms and
//! access to the clip history.

use vstd::prelude::*;
use vstd::utf8::{encode_scalar, encode_utf8, is_ascii_chars, is_ascii_chars_encode_utf8, char_is_scalar};
use crate::clipboard::AppState;
use crate::models::{clip_views, Clip};
use crate::json::{json_reformat, reformat_json, result_view};
use crate::text::{lemma_encode_char_len, 
    hex_upper_char, hex_upper_digit, lowercase_of, push_char, to_lowercase, to_uppercase, trim,
    trim_spec, uppercase_of,
};

verus! {

/// A byte that URL encoding leaves as it is: an ASCII letter or digit, or
/// one of `-`, `_`, `.`, `~`.
pub open spec fn is_unreserved(b: u8) -> bool {
    ||| (65 <= b && b <= 90)
    ||| (97 <= b && b <= 122)
    ||| (48 <= b && b <= 57)
    ||| b == 45
    ||| b == 95
    ||| b == 46
    ||| b == 126
}

/// The URL encoding of one byte: the byte as a character where it is
/// unreserved, else `%` and two uppercase hex digits.
pub open spec fn encode_byte(b: u8) -> Seq<char> {
    if is_unreserved(b) {
        seq![b as char]
    } else {
        seq!['%', hex_upper_digit((b / 16) as int), hex_upper_digit((b % 16) as int)]
    }
}

/// The URL encoding of a byte sequence, byte by byte.
pub open spec fn percent_encode(bytes: Seq<u8>) -> Seq<char>
    decreases bytes.len(),
{
    if bytes.len() == 0 {
        Seq::empty()
    } else {
        percent_encode(bytes.drop_last()) + encode_byte(bytes.last())
    }
}

/// Percent-encode every byte of the UTF-8 text outside the unreserved set.
pub fn url_encode(s: &str) -> (r: String)
    ensures
        r@ == percent_encode(encode_utf8(s@)),
{
    let bytes = s.as_bytes();
    let n = bytes.len();
    let mut out = String::new();
    let mut i: usize = 0;
    while i < n
        invariant
            n == bytes@.len(),
            bytes@ == encode_utf8(s@),
            i <= n,
            out@ == percent_encode(bytes@.take(i as int)),
        decreases n - i,
    {
        let b = bytes[i];
        assert(bytes@.take(i + 1).drop_last() =~= bytes@.take(i as int));
        if (65 <= b && b <= 90) || (97 <= b && b <= 122) || (48 <= b && b <= 57) || b == 45 || b == 95
            || b == 46 || b == 126 {
            push_char(&mut out, b as char);
        } else {
            push_char(&mut out, '%');
            push_char(&mut out, hex_upper_char(b / 16));
            push_char(&mut out, hex_upper_char(b % 16));
        }
        assert(out@ =~= percent_encode(bytes@.take(i + 1)));
        i = i + 1;
    }
    assert(bytes@.take(n as int) =~= bytes@);
    out
}

/// The value of a hexadecimal digit, either case.
pub open spec fn hex_value(c: char) -> int {
    if '0' <= c && c <= '9' {
        c as int - 48
    } else if 'A' <= c && c <= 'F' {
        c as int - 55
    } else if 'a' <= c && c <= 'f' {
        c as int - 87
    } else {
        0
    }
}

/// Percent-decoding: `%` and two hex digits stand for one byte, any other
/// character for its own code.
pub open spec fn percent_decode(cs: Seq<char>) -> Seq<u8>
    decreases cs.len(),
{
    if cs.len() == 0 {
        Seq::empty()
    } else if cs[0] == '%' && cs.len() >= 3 {
        seq![(hex_value(cs[1]) * 16 + hex_value(cs[2])) as u8] + percent_decode(cs.skip(3))
    } else {
        seq![cs[0] as u8] + percent_decode(cs.drop_first())
    }
}

/// URL encoding works byte by byte: the encoding of two byte sequences
/// one after the other is their encodings one after the other.
pub proof fn lemma_percent_encode_concat(a: Seq<u8>, b: Seq<u8>)
    ensures
        percent_encode(a + b) == percent_encode(a) + percent_encode(b),
    decreases b.len(),
{
    if b.len() == 0 {
        assert(a + b =~= a);
        assert(percent_encode(a) + percent_encode(b) =~= percent_encode(a));
    } else {
        assert((a + b).drop_last() =~= a + b.drop_last());
        assert((a + b).last() == b.last());
        lemma_percent_encode_concat(a, b.drop_last());
        assert(percent_encode(a + b) =~= percent_encode(a) + percent_encode(b));
    }
}

proof fn lemma_decode_encoded_byte(b: u8, rest: Seq<char>)
    ensures
        percent_decode(encode_byte(b) + rest) == seq![b] + percent_decode(rest),
{
    let e = encode_byte(b) + rest;
    if is_unreserved(b) {
        assert(e[0] == b as char);
        assert(e.drop_first() =~= rest);
        assert((b as char) as u8 == b);
    } else {
        let hi = (b / 16) as int;
        let lo = (b % 16) as int;
        assert(e[0] == '%');
        assert(e[1] == hex_upper_digit(hi));
        assert(e[2] == hex_upper_digit(lo));
        assert(hex_value(hex_upper_digit(hi)) == hi);
        assert(hex_value(hex_upper_digit(lo)) == lo);
        assert(e.skip(3) =~= rest);
        assert((hi * 16 + lo) as u8 == b);
    }
}

/// URL encoding loses nothing: percent-decoding the encoding of a byte
/// sequence gives the bytes back.
pub proof fn lemma_url_encoding_roundtrip(bytes: Seq<u8>)
    ensures
        percent_decode(percent_encode(bytes)) == bytes,
    decreases bytes.len(),
{
    if bytes.len() == 0 {
        assert(percent_encode(bytes) =~= Seq::<char>::empty());
    } else {
        let first = seq![bytes[0]];
        let rest = bytes.drop_first();
        assert(bytes =~= first + rest);
        lemma_percent_encode_concat(first, rest);
        assert(first.drop_last() =~= Seq::<u8>::empty());
        assert(percent_encode(Seq::<u8>::empty()) =~= Seq::<char>::empty());
        assert(first.last() == bytes[0]);
        assert(percent_encode(first) =~= encode_byte(bytes[0]));
        lemma_url_encoding_roundtrip(rest);
        lemma_decode_encoded_byte(bytes[0], percent_encode(rest));
        assert(seq![bytes[0]] + rest =~= bytes);
    }
}

/// URL encoding of one byte: an ASCII letter or digit, or one of `-`, `_`,
/// `.`, `~`, stays as that character; every other byte, `+` and space among
/// them, becomes `%` and its two uppercase hex digits.
pub proof fn lemma_percent_encode_byte(b: u8)
    ensures
        ((65 <= b <= 90) || (97 <= b <= 122) || (48 <= b <= 57) || b == 45 || b == 95 || b == 46 || b == 126)
            ==> percent_encode(seq![b]) == seq![b as char],
        !((65 <= b <= 90) || (97 <= b <= 122) || (48 <= b <= 57) || b == 45 || b == 95 || b == 46 || b == 126)
            ==> percent_encode(seq![b]) == seq![
            '%',
            (if b / 16 < 10 { (48 + b / 16) as char } else { (55 + b / 16) as char }),
            (if b % 16 < 10 { (48 + b % 16) as char } else { (55 + b % 16) as char }),
        ],
{
    let one = seq![b];
    assert(one.drop_last() =~= Seq::<u8>::empty());
    assert(one.last() == b);
    assert(percent_encode(Seq::<u8>::empty()) =~= Seq::<char>::empty());
    assert(percent_encode(one) =~= encode_byte(b));
}

/// Every byte is unreserved.
pub open spec fn all_unreserved(bytes: Seq<u8>) -> bool {
    forall|i: int| 0 <= i < bytes.len() ==> is_unreserved(#[trigger] bytes[i])
}

proof fn lemma_percent_encode_len(bytes: Seq<u8>)
    ensures
        percent_encode(bytes).len() >= bytes.len(),
        !all_unreserved(bytes) ==> percent_encode(bytes).len() > bytes.len(),
        all_unreserved(bytes) ==> percent_encode(bytes) == bytes.map_values(|b: u8| b as char),
    decreases bytes.len(),
{
    if bytes.len() > 0 {
        let prev = bytes.drop_last();
        lemma_percent_encode_len(prev);
        if !all_unreserved(bytes) && all_unreserved(prev) {
            let i = choose|i: int| 0 <= i < bytes.len() && !is_unreserved(#[trigger] bytes[i]);
            if i < prev.len() {
                assert(prev[i] == bytes[i]);
            }
        }
        if all_unreserved(bytes) {
            assert forall|i: int| 0 <= i < prev.len() implies is_unreserved(#[trigger] prev[i]) by {
                assert(prev[i] == bytes[i]);
            }
            assert(is_unreserved(bytes[bytes.len() - 1]));
            assert(percent_encode(bytes) =~= bytes.map_values(|b: u8| b as char));
        }
    }
}

proof fn lemma_encode_utf8_len(s: Seq<char>)
    ensures
        encode_utf8(s).len() >= s.len(),
    decreases s.len(),
{
    if s.len() > 0 {
        lemma_encode_char_len(s[0]);
        lemma_encode_utf8_len(s.drop_first());
    }
}

proof fn lemma_small_char(c: char)
    requires
        (c as u32) <= 0x7f,
    ensures
        '\0' <= c <= '\u{7f}',
{
}

proof fn lemma_low_bytes_are_ascii(s: Seq<char>)
    requires
        forall|i: int| 0 <= i < encode_utf8(s).len() ==> #[trigger] encode_utf8(s)[i] < 0x80,
    ensures
        is_ascii_chars(s),
    decreases s.len(),
{
    if s.len() > 0 {
        let c = s[0];
        let v = c as u32;
        char_is_scalar(c);
        lemma_encode_char_len(c);
        let e = encode_scalar(v);
        assert(encode_utf8(s)[0] == e[0]);
        if v > 0x7f {
            assert(e[0] >= 0x80) by {
                if v <= 0x7ff {
                    assert((0xC0u8 | ((v >> 6) & 0x1F) as u8) >= 0x80) by (bit_vector);
                } else if v <= 0xffff {
                    assert((0xE0u8 | ((v >> 12) & 0x0F) as u8) >= 0x80) by (bit_vector);
                } else {
                    assert((0xF0u8 | ((v >> 18) & 0x7) as u8) >= 0x80) by (bit_vector);
                }
            }
        }
        let rest = s.drop_first();
        assert forall|i: int| 0 <= i < encode_utf8(rest).len() implies #[trigger] encode_utf8(rest)[i] < 0x80 by {
            assert(encode_utf8(s)[i + e.len()] == encode_utf8(rest)[i]);
        }
        lemma_low_bytes_are_ascii(rest);
        assert(encode_utf8(s)[0] < 0x80);
        assert(v <= 0x7f);
        lemma_small_char(c);
        assert(is_ascii_chars(rest));
        assert forall|i: int| 0 <= i < s.len() implies '\0' <= #[trigger] s[i] <= '\u{7f}' by {
            if i > 0 {
                assert(s[i] == rest[i - 1]);
            } else {
                assert(s[i] == c);
            }
        }
    }
}

/// URL encoding leaves a text unchanged exactly when every byte of its
/// UTF-8 is unreserved.
pub proof fn lemma_url_encode_unchanged(s: Seq<char>)
    ensures
        percent_encode(encode_utf8(s)) == s <==> all_unreserved(encode_utf8(s)),
{
    let bytes = encode_utf8(s);
    lemma_percent_encode_len(bytes);
    lemma_encode_utf8_len(s);
    if all_unreserved(bytes) {
        assert forall|i: int| 0 <= i < bytes.len() implies #[trigger] bytes[i] < 0x80 by {
            assert(is_unreserved(bytes[i]));
        }
        lemma_low_bytes_are_ascii(s);
        is_ascii_chars_encode_utf8(s);
        assert forall|i: int| 0 <= i < s.len() implies bytes.map_values(|b: u8| b as char)[i] == s[i] by {
            assert(s[i] as u8 == bytes[i]);
        }
        assert(bytes.map_values(|b: u8| b as char) =~= s);
    }
}

/// What the `json_pretty` transform gives: the trimmed text pretty-printed
/// where it parses as JSON, else `Invalid JSON: ` and the parser's message.
pub open spec fn json_pretty_spec(text: Seq<char>) -> Result<Seq<char>, Seq<char>> {
    match json_reformat(trim_spec(text)) {
        Ok(pretty) => Ok(pretty),
        Err(message) => Err("Invalid JSON: "@ + message),
    }
}

/// What each transform gives: the text upper-cased, lower-cased, trimmed,
/// URL-encoded or pretty-printed as JSON, or an error naming an unknown one.
pub open spec fn transform_spec(text: Seq<char>, op: Seq<char>) -> Result<Seq<char>, Seq<char>> {
    if op == "uppercase"@ {
        Ok(uppercase_of(text))
    } else if op == "lowercase"@ {
        Ok(lowercase_of(text))
    } else if op == "trim"@ {
        Ok(trim_spec(text))
    } else if op == "url_encode"@ {
        Ok(percent_encode(encode_utf8(text)))
    } else if op == "json_pretty"@ {
        json_pretty_spec(text)
    } else {
        Err("Unknown transform: "@ + op)
    }
}

/// One of the five transforms.
pub open spec fn is_known_transform(op: Seq<char>) -> bool {
    op == "uppercase"@ || op == "lowercase"@ || op == "trim"@ || op == "url_encode"@ || op == "json_pretty"@
}

proof fn lemma_transform_names_differ()
    ensures
        "uppercase"@ != "lowercase"@,
        "uppercase"@ != "trim"@,
        "uppercase"@ != "url_encode"@,
        "uppercase"@ != "json_pretty"@,
        "lowercase"@ != "trim"@,
        "lowercase"@ != "url_encode"@,
        "lowercase"@ != "json_pretty"@,
        "trim"@ != "url_encode"@,
        "trim"@ != "json_pretty"@,
        "url_encode"@ != "json_pretty"@,
{
    reveal_strlit("uppercase");
    reveal_strlit("lowercase");
    reveal_strlit("trim");
    reveal_strlit("url_encode");
    reveal_strlit("json_pretty");
    assert("uppercase"@[0] == 'u' && "uppercase"@[1] == 'p');
    assert("lowercase"@[0] == 'l');
    assert("trim"@[0] == 't');
    assert("url_encode"@[0] == 'u' && "url_encode"@[1] == 'r');
    assert("json_pretty"@[0] == 'j');
}

/// What each transform name does: `uppercase` and `lowercase` change case,
/// `trim` trims, `url_encode` URL-encodes the UTF-8 bytes, `json_pretty`
/// pretty-prints the trimmed text or reports `Invalid JSON: ` and the
/// parser's message, and any other name is reported as
/// `Unknown transform: ` and the name.
pub proof fn lemma_transform_rules(text: Seq<char>, op: Seq<char>)
    ensures
        op == "uppercase"@ ==> transform_spec(text, op) == Ok::<Seq<char>, Seq<char>>(uppercase_of(text)),
        op == "lowercase"@ ==> transform_spec(text, op) == Ok::<Seq<char>, Seq<char>>(lowercase_of(text)),
        op == "trim"@ ==> transform_spec(text, op) == Ok::<Seq<char>, Seq<char>>(trim_spec(text)),
        op == "url_encode"@ ==> transform_spec(text, op) == Ok::<Seq<char>, Seq<char>>(percent_encode(encode_utf8(text))),
        op == "json_pretty"@ && json_reformat(trim_spec(text)) is Ok ==> transform_spec(text, op) == json_reformat(
            trim_spec(text),
        ),
        op == "json_pretty"@ && json_reformat(trim_spec(text)) is Err ==> transform_spec(text, op)
            == Err::<Seq<char>, Seq<char>>("Invalid JSON: "@ + json_reformat(trim_spec(text))->Err_0),
        !(op == "uppercase"@ || op == "lowercase"@ || op == "trim"@ || op == "url_encode"@ || op == "json_pretty"@)
            ==> transform_spec(text, op) == Err::<Seq<char>, Seq<char>>("Unknown transform: "@ + op),
{
    lemma_transform_names_differ();
}

/// A transform fails exactly where its name is unknown, or where it is
/// `json_pretty` and serde_json refuses the trimmed text.
pub proof fn lemma_transform_fails_exactly(text: Seq<char>, op: Seq<char>)
    ensures
        transform_spec(text, op) is Err <==> (!is_known_transform(op) || (op == "json_pretty"@
            && json_reformat(trim_spec(text)) is Err)),
{
    lemma_transform_names_differ();
}

/// Apply a Power-Paste transform to text before pasting.
pub fn transform_text(text: String, op: String) -> (r: Result<String, String>)
    ensures
        result_view(r) == transform_spec(text@, op@),
{
    proof {
        lemma_transform_names_differ();
    }
    if op == String::from_str("uppercase") {
        Ok(to_uppercase(text.as_str()))
    } else if op == String::from_str("lowercase") {
        Ok(to_lowercase(text.as_str()))
    } else if op == String::from_str("trim") {
        Ok(trim(text.as_str()))
    } else if op == String::from_str("url_encode") {
        Ok(url_encode(text.as_str()))
    } else if op == String::from_str("json_pretty") {
        let trimmed = trim(text.as_str());
        match reformat_json(trimmed.as_str()) {
            Ok(pretty) => Ok(pretty),
            Err(detail) => {
                let mut msg = String::from_str("Invalid JSON: ");
                msg.append(detail.as_str());
                Err(msg)
            },
        }
    } else {
        let mut msg = String::from_str("Unknown transform: ");
        msg.append(op.as_str());
        Err(msg)
    }
}

/// All clips of the history, newest first.
pub fn get_clips(state: &AppState) -> (r: Vec<Clip>)
    ensures
        clip_views(r@) == clip_views(state.clips@),
{
    let n = state.clips.len();
    let mut out: Vec<Clip> = Vec::new();
    let mut i: usize = 0;
    while i < n
        invariant
            n == state.clips@.len(),
            i <= n,
            out@.len() == i,
            clip_views(out@) == clip_views(state.clips@.take(i as int)),
        decreases n - i,
    {
        let c = state.clips[i].duplicate();
        let ghost before = out@;
        out.push(c);
        proof {
            let lhs = clip_views(out@);
            let rhs = clip_views(state.clips@.take(i + 1));
            assert forall|k: int| 0 <= k < lhs.len() implies lhs[k] == rhs[k] by {
                if k < i {
                    assert(out@[k] == before[k]);
                    assert(clip_views(before)[k] == clip_views(state.clips@.take(i as int))[k]);
                }
            }
            assert(lhs =~= rhs);
        }
        i = i + 1;
    }
    assert(state.clips@.take(n as int) =~= state.clips@);
    out
}

/// The clips whose id is not `id`, in their order.
pub open spec fn without_id(clips: Seq<Clip>, id: Seq<char>) -> Seq<Clip>
    decreases clips.len(),
{
    if clips.len() == 0 {
        Seq::empty()
    } else if clips.last().id@ == id {
        without_id(clips.drop_last(), id)
    } else {
        without_id(clips.drop_last(), id).push(clips.last())
    }
}

/// Deleting by id keeps exactly the clips with another id, in their order
/// in the history: it is the history filtered by id.
pub proof fn lemma_delete_keeps_order(clips: Seq<Clip>, id: Seq<char>)
    ensures
        without_id(clips, id) == clips.filter(|c: Clip| c.id@ != id),
    decreases clips.len(),
{
    reveal_with_fuel(Seq::<Clip>::filter, 1);
    if clips.len() > 0 {
        lemma_delete_keeps_order(clips.drop_last(), id);
    } else {
        assert(clips.filter(|c: Clip| c.id@ != id) =~= Seq::<Clip>::empty());
    }
}

/// Removes every clip whose id is `id`, keeping the order of the others.
pub fn delete_clip(state: &mut AppState, id: String)
    ensures
        final(state).clips@ == without_id(old(state).clips@, id@),
        old(state).wf() ==> final(state).wf(),
        final(state).capture_enabled == old(state).capture_enabled,
        final(state).workspace == old(state).workspace,
        final(state).recent_hash() == old(state).recent_hash(),
{
    let ghost orig = state.clips@;
    let mut i: usize = 0;
    let ghost mut j: int = 0;
    assert(orig.skip(0) =~= orig);
    while i < state.clips.len()
        invariant
            0 <= j <= orig.len(),
            i == without_id(orig.take(j), id@).len(),
            state.clips@ == without_id(orig.take(j), id@) + orig.skip(j),
            state.capture_enabled == old(state).capture_enabled,
            state.workspace == old(state).workspace,
            state.last_hash == old(state).last_hash,
        decreases state.clips@.len() - i,
    {
        assert(orig.take(j + 1).drop_last() =~= orig.take(j));
        assert(state.clips@[i as int] == orig[j]);
        if state.clips[i].id == id {
            state.clips.remove(i);
            assert(state.clips@ =~= without_id(orig.take(j + 1), id@) + orig.skip(j + 1));
        } else {
            assert(state.clips@ =~= without_id(orig.take(j + 1), id@) + orig.skip(j + 1));
            i = i + 1;
        }
        proof {
            j = j + 1;
        }
    }
    proof {
        if j < orig.len() {
            assert(state.clips@.len() > i);
        }
        assert(orig.take(j) =~= orig);
        assert(orig.skip(j) =~= Seq::<Clip>::empty());
        assert(state.clips@ =~= without_id(orig, id@));
        lemma_delete_removes_exactly(orig, id@);
    }
}

/// Deleting by id removes exactly the clips with that id: none of them is
/// left, every other clip stays, and the history never grows.
pub proof fn lemma_delete_removes_exactly(clips: Seq<Clip>, id: Seq<char>)
    ensures
        forall|k: int| 0 <= k < without_id(clips, id).len() ==> (#[trigger] without_id(clips, id)[k]).id@ != id,
        forall|k: int| 0 <= k < clips.len() && (#[trigger] clips[k]).id@ != id ==> without_id(clips, id).contains(clips[k]),
        without_id(clips, id).len() <= clips.len(),
    decreases clips.len(),
{
    if clips.len() > 0 {
        let prev = clips.drop_last();
        lemma_delete_removes_exactly(prev, id);
        let w = without_id(clips, id);
        let pw = without_id(prev, id);
        assert forall|k: int| 0 <= k < clips.len() && (#[trigger] clips[k]).id@ != id implies w.contains(clips[k]) by {
            if k < prev.len() {
                assert(prev[k] == clips[k]);
                let m = choose|m: int| 0 <= m < pw.len() && pw[m] == prev[k];
                if clips.last().id@ != id {
                    assert(w[m] == pw[m]);
                }
            } else {
                assert(w[w.len() - 1] == clips.last());
            }
        }
        assert forall|k: int| 0 <= k < w.len() implies (#[trigger] w[k]).id@ != id by {
            if k < pw.len() {
                assert(w[k] == pw[k]);
            }
        }
    }
}

/// Empties the history.
pub fn clear_clips(state: &mut AppState)
    ensures
        final(state).clips@.len() == 0,
        final(state).wf(),
        final(state).capture_enabled == old(state).capture_enabled,
        final(state).workspace == old(state).workspace,
        final(state).recent_hash() == old(state).recent_hash(),
{
    state.clips.clear();
}

/// Turns capture on or off.
pub fn set_capture_enabled(state: &mut AppState, enabled: bool)
    ensures
        final(state).capture_enabled == enabled,
        final(state).clips == old(state).clips,
        final(state).workspace == old(state).workspace,
        final(state).recent_hash() == old(state).recent_hash(),
{
    state.capture_enabled = enabled;
}

/// Whether capture is on.
pub fn get_capture_enabled(state: &AppState) -> (r: bool)
    ensures
        r == state.capture_enabled,
{
    state.capture_enabled
}

/// Pauses capture where it is on, resumes it where it is off, and tells
/// whether it is on afterwards.
pub fn toggle_capture(state: &mut AppState) -> (r: bool)
    ensures
        r == final(state).capture_enabled,
        final(state).capture_enabled == !old(state).capture_enabled,
        final(state).clips == old(state).clips,
        final(state).workspace == old(state).workspace,
        final(state).recent_hash() == old(state).recent_hash(),
{
    state.capture_enabled = !state.capture_enabled;
    state.capture_enabled
}

/// Switches to the workspace `name`.
pub fn set_workspace(state: &mut AppState, name: String)
    ensures
        final(state).workspace == name,
        final(state).clips == old(state).clips,
        final(state).capture_enabled == old(state).capture_enabled,
        final(state).recent_hash() == old(state).recent_hash(),
{
    state.workspace = name;
}

/// The current workspace.
pub fn get_workspace(state: &AppState) -> (r: String)
    ensures
        r@ == state.workspace@,
{
    state.workspace.clone()
}

} // verus!
