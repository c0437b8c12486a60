//! Regular expressions, matched by the `regex` crate.

use vstd::prelude::*;
use vstd::utf8::is_ascii_chars;
use crate::text::{is_white_space, trim_spec};

verus! {

/// A whole string that is a web address: `http://` or `https://` followed by
/// no whitespace, with optional whitespace around it.
pub const URL_PATTERN: &'static str = "^\\s*https?://[^\\s]+\\s*$";

/// A whole string that is a hex color: an optional `#` and 3, 6 or 8 hex
/// digits, with optional whitespace around it.
pub const HEX_COLOR_PATTERN: &'static str = "^\\s*#?([0-9a-fA-F]{3}|[0-9a-fA-F]{6}|[0-9a-fA-F]{8})\\s*$";

/// A whole string that is a one-time code: 6 to 8 decimal digits.
pub const OTP_PATTERN: &'static str = "^\\d{6,8}$";

/// An ASCII hexadecimal digit.
pub open spec fn is_hex_digit(c: char) -> bool {
    ('0' <= c && c <= '9') || ('a' <= c && c <= 'f') || ('A' <= c && c <= 'F')
}

/// What `HEX_COLOR_PATTERN` matches: once whitespace is trimmed from both
/// ends, an optional `#` followed by 3, 6 or 8 hex digits.
pub open spec fn hex_color_shape(s: Seq<char>) -> bool {
    let t = trim_spec(s);
    let digits = if t.len() > 0 && t[0] == '#' { t.drop_first() } else { t };
    &&& digits.len() == 3 || digits.len() == 6 || digits.len() == 8
    &&& forall|i: int| 0 <= i < digits.len() ==> is_hex_digit(#[trigger] digits[i])
}

/// No character of `s` is whitespace.
pub open spec fn no_white_space(s: Seq<char>) -> bool {
    forall|i: int| 0 <= i < s.len() ==> !is_white_space(#[trigger] s[i])
}

/// What `URL_PATTERN` matches: once whitespace is trimmed from both ends,
/// `http://` or `https://` followed by at least one character and no
/// whitespace.
pub open spec fn url_shape(s: Seq<char>) -> bool {
    let t = trim_spec(s);
    ||| t.len() > 7 && t.take(7) == "http://"@ && no_white_space(t.skip(7))
    ||| t.len() > 8 && t.take(8) == "https://"@ && no_white_space(t.skip(8))
}

/// What `OTP_PATTERN` matches in ASCII text: 6 to 8 characters, all ASCII
/// digits.
pub open spec fn otp_ascii_shape(s: Seq<char>) -> bool {
    &&& 6 <= s.len() <= 8
    &&& forall|i: int| 0 <= i < s.len() ==> '0' <= #[trigger] s[i] && s[i] <= '9'
}

/// What the `regex` crate answers for `pattern` on `haystack`: `None` where
/// `Regex::new` refuses the pattern, else whether `Regex::is_match` finds a
/// match in the haystack.
pub uninterp spec fn regex_match(pattern: Seq<char>, haystack: Seq<char>) -> Option<bool>;

/// Compiles `pattern` with `regex::Regex::new` and, where it compiles,
/// answers `Regex::is_match` on `haystack`. The answer is a function of the
/// pattern and the haystack (`regex_match`). For the two patterns whose
/// classes are spelled out in the regex crate's syntax documentation (`\s`
/// is `\p{White_Space}`, `[0-9a-fA-F]` is ASCII, `^` and `$` anchor at the
/// ends of the haystack) it states what they match; for `OTP_PATTERN`,
/// whose `\d` is the Unicode decimal-digit class, it states nothing more.
#[verifier::external_body]
pub(crate) fn regex_is_match(pattern: &str, haystack: &str) -> (r: Option<bool>)
    ensures
        r == regex_match(pattern@, haystack@),
        pattern@ == HEX_COLOR_PATTERN@ ==> r == Some(hex_color_shape(haystack@)),
        pattern@ == URL_PATTERN@ ==> r == Some(url_shape(haystack@)),
        pattern@ == OTP_PATTERN@ ==> r is Some,
        pattern@ == OTP_PATTERN@ && is_ascii_chars(haystack@) ==> r == Some(otp_ascii_shape(haystack@)),
{
    match regex::Regex::new(pattern) {
        Ok(re) => Some(re.is_match(haystack)),
        Err(_) => None,
    }
}

/// Whether `pattern` compiles and matches `haystack`.
pub fn pattern_matches(pattern: &str, haystack: &str) -> (r: bool)
    ensures
        r == (regex_match(pattern@, haystack@) == Some(true)),
        pattern@ == HEX_COLOR_PATTERN@ ==> r == hex_color_shape(haystack@),
        pattern@ == URL_PATTERN@ ==> r == url_shape(haystack@),
        pattern@ == OTP_PATTERN@ && is_ascii_chars(haystack@) ==> r == otp_ascii_shape(haystack@),
{
    match regex_is_match(pattern, haystack) {
        Some(b) => b,
        None => false,
    }
}

} // verus!
