use vstd::prelude::*;
use crate::words::string_views;
use crate::text::{
    join_words, remove_whitespace, replace_wide_spaces, spaces_replaced, white_space_removed,
    words_joined,
};

verus! {

/// Whether scraper accepts the text as a CSS selector list.
pub uninterp spec fn selector_parses(s: Seq<char>) -> bool;

/// The inner markup of each element of the page `html` that `selector`
/// matches, in document order.
pub uninterp spec fn inner_htmls(html: Seq<char>, selector: Seq<char>) -> Seq<Seq<char>>;

/// Relies on scraper's `Selector::parse` (`Ok` exactly for a selector list that
/// it accepts), `Html::parse_document` (any text gives a document, malformed
/// markup repaired), `Html::select` and `ElementRef::inner_html`: the inner
/// markup of each matching element, in document order.
#[verifier::external_body]
fn select_inner_html(html: &str, selector: &str) -> (r: Option<Vec<String>>)
    ensures
        r is Some == selector_parses(selector@),
        r is Some ==> string_views(r->0@) == inner_htmls(html@, selector@),
{
    let selector = match scraper::Selector::parse(selector) {
        Ok(s) => s,
        Err(_) => return None,
    };
    let doc = scraper::Html::parse_document(html);
    let mut out = Vec::new();
    for element in doc.select(&selector) {
        out.push(element.inner_html());
    }
    Some(out)
}

/// A fragment with its wide spaces replaced and its white space collapsed.
pub open spec fn cleaned(s: Seq<char>) -> Seq<char> {
    words_joined(spaces_replaced(s))
}

/// `out` holds each fragment of `raw`, cleaned.
pub open spec fn is_cleaned(out: Seq<String>, raw: Seq<Seq<char>>) -> bool {
    &&& out.len() == raw.len()
    &&& forall|i: int| 0 <= i < out.len() ==> #[trigger] out[i]@ == cleaned(raw[i])
}

/// Cleans each fragment: wide spaces become `' '`, then white space is
/// collapsed to single spaces between words.
pub fn clean_fragments(raw: &Vec<String>) -> (r: Vec<String>)
    ensures
        is_cleaned(r@, string_views(raw@)),
{
    let mut r: Vec<String> = Vec::new();
    let mut i: usize = 0;
    while i < raw.len()
        invariant
            0 <= i <= raw@.len(),
            r@.len() == i,
            forall|k: int| 0 <= k < i ==> #[trigger] r@[k]@ == cleaned(raw@[k]@),
        decreases raw@.len() - i,
    {
        let spaced = replace_wide_spaces(raw[i].as_str());
        r.push(join_words(spaced.as_str()));
        i += 1;
    }
    r
}

/// The cleaned inner markup of every element of `html` that `element` (a CSS
/// selector) matches; `None` when the selector is not valid.
pub fn extract_element(element: &str, html: &str) -> (r: Option<Vec<String>>)
    ensures
        r is Some <==> selector_parses(element@),
        r is Some ==> is_cleaned(r->0@, inner_htmls(html@, element@)),
{
    match select_inner_html(html, element) {
        Some(raw) => Some(clean_fragments(&raw)),
        None => None,
    }
}

/// The most characters a page title should have.
pub const TITLE_LIMIT: usize = 40;

/// Whether the first title has at most `TITLE_LIMIT` characters; `None` when
/// there is no title.
pub fn first_title_fits(titles: &Vec<String>) -> (r: Option<bool>)
    ensures
        r == if titles@.len() == 0 {
            None
        } else {
            Some(titles@[0]@.len() <= TITLE_LIMIT)
        },
{
    if titles.len() == 0 {
        None
    } else {
        Some(titles[0].unicode_len() <= TITLE_LIMIT)
    }
}

/// What `title40` answers for the page `html`: whether its first title,
/// cleaned, has at most `TITLE_LIMIT` characters; nothing when it has no title.
pub open spec fn title_verdict(html: Seq<char>) -> Option<bool> {
    let titles = inner_htmls(html, "title"@);
    if !selector_parses("title"@) || titles.len() == 0 {
        None
    } else {
        Some(cleaned(titles[0]).len() <= TITLE_LIMIT)
    }
}

/// Whether the first `<title>` of `html`, cleaned, has at most `TITLE_LIMIT`
/// characters; `None` when the page has no title.
pub fn title40(html: &str) -> (r: Option<bool>)
    ensures
        r == title_verdict(html@),
{
    match extract_element("title", html) {
        Some(titles) => first_title_fits(&titles),
        None => None,
    }
}

/// `out` holds each fragment of `raw` with its white space removed.
pub open spec fn is_compacted(out: Seq<String>, raw: Seq<Seq<char>>) -> bool {
    &&& out.len() == raw.len()
    &&& forall|i: int| 0 <= i < out.len() ==> #[trigger] out[i]@ == white_space_removed(raw[i])
}

/// Removes the white space from each fragment.
pub fn compact_fragments(raw: &Vec<String>) -> (r: Vec<String>)
    ensures
        is_compacted(r@, string_views(raw@)),
{
    let mut out: Vec<String> = Vec::new();
    let mut i: usize = 0;
    while i < raw.len()
        invariant
            0 <= i <= raw@.len(),
            out@.len() == i,
            forall|k: int| 0 <= k < i ==> #[trigger] out@[k]@ == white_space_removed(raw@[k]@),
        decreases raw@.len() - i,
    {
        out.push(remove_whitespace(raw[i].as_str()));
        i += 1;
    }
    out
}

/// The inner markup of every element of `html` that `tag` selects, with all
/// white space removed; `None` when the selector is not valid.
pub fn extract_tag_content(html: &str, tag: &str) -> (r: Option<Vec<String>>)
    ensures
        r is Some <==> selector_parses(tag@),
        r is Some ==> is_compacted(r->0@, inner_htmls(html@, tag@)),
{
    match select_inner_html(html, tag) {
        Some(raw) => Some(compact_fragments(&raw)),
        None => None,
    }
}

/// The `<title>` contents of `html`, without white space.
pub fn extract_title(html: &str) -> (r: Option<Vec<String>>)
    ensures
        r is Some <==> selector_parses("title"@),
        r is Some ==> is_compacted(r->0@, inner_htmls(html@, "title"@)),
{
    extract_tag_content(html, "title")
}

/// The `<h0>` contents of `html`, without white space.
pub fn extract_h0(html: &str) -> (r: Option<Vec<String>>)
    ensures
        r is Some <==> selector_parses("h0"@),
        r is Some ==> is_compacted(r->0@, inner_htmls(html@, "h0"@)),
{
    extract_tag_content(html, "h0")
}

/// The `<h1>` contents of `html`, without white space.
pub fn extract_h1(html: &str) -> (r: Option<Vec<String>>)
    ensures
        r is Some <==> selector_parses("h1"@),
        r is Some ==> is_compacted(r->0@, inner_htmls(html@, "h1"@)),
{
    extract_tag_content(html, "h1")
}

/// The `<h2>` contents of `html`, without white space.
pub fn extract_h2(html: &str) -> (r: Option<Vec<String>>)
    ensures
        r is Some <==> selector_parses("h2"@),
        r is Some ==> is_compacted(r->0@, inner_htmls(html@, "h2"@)),
{
    extract_tag_content(html, "h2")
}

} // verus!
