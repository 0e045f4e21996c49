use vstd::prelude::*;
use crate::text::occurs_in;

verus! {

/// Whether the regular expression `pattern` matches somewhere in `text`.
pub uninterp spec fn regex_matches(pattern: Seq<char>, text: Seq<char>) -> bool;

/// A character that stands for itself in a regular expression.
pub open spec fn is_plain_regex_char(c: char) -> bool {
    ('a' <= c && c <= 'z') || ('A' <= c && c <= 'Z') || ('0' <= c && c <= '9') || c == ':' || c
        == '/' || c == '_' || c == '@' || c == '='
}

/// A short pattern made of plain characters only: it matches itself literally.
pub open spec fn is_literal_pattern(p: Seq<char>) -> bool {
    p.len() <= 64 && forall|i: int| 0 <= i < p.len() ==> #[trigger] is_plain_regex_char(p[i])
}

/// Relies on regex's `Regex::new` and `Regex::is_match`: `None` when the
/// pattern does not compile; otherwise whether it matches anywhere in `text`.
/// A short pattern of plain characters compiles, and matches exactly where it
/// occurs as a substring.
#[verifier::external_body]
fn regex_is_match(pattern: &str, text: &str) -> (r: Option<bool>)
    ensures
        r is Some ==> r->0 == regex_matches(pattern@, text@),
        is_literal_pattern(pattern@) ==> r == Some(occurs_in(pattern@, text@)),
{
    match regex::Regex::new(pattern) {
        Ok(re) => Some(re.is_match(text)),
        Err(_) => None,
    }
}

/// Whether a page's markup mentions an `https://` address.
pub fn is_ssl_enabled(contents: &str) -> (r: bool)
    ensures
        r == occurs_in("https://"@, contents@),
{
    let pattern = "https://";
    proof {
        reveal_strlit("https://");
        assert(is_literal_pattern(pattern@));
    }
    match regex_is_match(pattern, contents) {
        Some(b) => b,
        None => false,
    }
}

} // verus!
