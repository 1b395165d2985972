//! Strings as JSON writes and reads them: the calls into `serde_json`.
use crate::text;
use vstd::prelude::*;

verus! {

/// Whether a text stands for itself between the quotes of a JSON string: no quote, no backslash, no
/// control character.
pub open spec fn is_plain(s: Seq<char>) -> bool {
    forall|i: int| 0 <= i < s.len() ==> #[trigger] s[i] != '"' && s[i] != '\\' && s[i] >= ' '
}

/// The text of the JSON string that a text makes between quotes; `None` where that is no JSON string.
pub uninterp spec fn json_string(s: Seq<char>) -> Option<Seq<char>>;

/// A text as a JSON string, with its quotes.
pub uninterp spec fn json_quoted(s: Seq<char>) -> Seq<char>;

/// `serde_json::from_str` into a `String`, on a text between quotes: a function of the text, and the
/// text itself where it is plain. What comes of escapes is left unsaid.
#[verifier::external_body]
pub(crate) fn unquote(s: &str) -> (r: Option<String>)
    ensures
        text::opt(r) == json_string(s@),
        is_plain(s@) ==> text::opt(r) == Some(s@),
{
    serde_json::from_str(&format!("\"{s}\"")).ok()
}

/// `serde_json::to_string` on a text, which does not fail: a function of the text, and the text between
/// quotes where it is plain. How other characters are escaped is left unsaid.
#[verifier::external_body]
pub(crate) fn quote(s: &str) -> (r: String)
    ensures
        r@ == json_quoted(s@),
        is_plain(s@) ==> r@ == "\""@ + s@ + "\""@,
{
    serde_json::to_string(s).unwrap()
}

/// A text as a JSON string.
pub open spec fn string_text(s: Seq<char>) -> Seq<char> {
    if is_plain(s) {
        "\""@ + s + "\""@
    } else {
        json_quoted(s)
    }
}

/// A truth value as JSON.
pub open spec fn bool_text(b: bool) -> Seq<char> {
    if b {
        "true"@
    } else {
        "false"@
    }
}

/// A truth value as JSON.
pub fn bool_word(b: bool) -> (r: &'static str)
    ensures
        r@ == bool_text(b),
{
    if b {
        "true"
    } else {
        "false"
    }
}

} // verus!
