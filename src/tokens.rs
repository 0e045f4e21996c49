use vstd::prelude::*;
use crate::text::{chars_of, white_space};

verus! {

/// The characters of `s` above `'@'` (U+0040): letters and everything beyond
/// ASCII punctuation and digits.
pub open spec fn above_at_sign(s: Seq<char>) -> Seq<char>
    decreases s.len(),
{
    if s.len() == 0 {
        Seq::empty()
    } else if s.last() > '@' {
        above_at_sign(s.drop_last()).push(s.last())
    } else {
        above_at_sign(s.drop_last())
    }
}

/// A character that the word tokenizer reads: an ASCII letter, a space, or
/// any character beyond ASCII.
pub open spec fn is_word_char(c: char) -> bool {
    ('a' <= c && c <= 'z') || ('A' <= c && c <= 'Z') || c == ' ' || c > '\u{7F}'
}

/// The characters of `s` that the word tokenizer reads.
pub open spec fn word_chars(s: Seq<char>) -> Seq<char>
    decreases s.len(),
{
    if s.len() == 0 {
        Seq::empty()
    } else if is_word_char(s.last()) {
        word_chars(s.drop_last()).push(s.last())
    } else {
        word_chars(s.drop_last())
    }
}

/// The text handed to the tokenizer: the characters above `'@'`; `None` when
/// none is left, where the caller yields the single token `"NULL"`.
pub fn tokenizer_input(text: &str) -> (r: Option<String>)
    ensures
        r is None <==> above_at_sign(text@).len() == 0,
        r is Some ==> r->0@ == above_at_sign(text@),
{
    let cs = chars_of(text);
    let mut out = String::new();
    let mut i: usize = 0;
    while i < cs.len()
        invariant
            cs@ == text@,
            0 <= i <= cs@.len(),
            out@ == above_at_sign(text@.subrange(0, i as int)),
        decreases cs@.len() - i,
    {
        assert(text@.subrange(0, i as int + 1).drop_last() =~= text@.subrange(0, i as int));
        let c = cs[i];
        if c > '@' {
            out.push(c);
        }
        i += 1;
    }
    assert(text@.subrange(0, cs@.len() as int) =~= text@);
    if out.unicode_len() == 0 {
        None
    } else {
        Some(out)
    }
}

/// The text handed to the word tokenizer: ASCII letters, spaces and
/// characters beyond ASCII.
pub fn word_input(text: &str) -> (r: String)
    ensures
        r@ == word_chars(text@),
{
    let cs = chars_of(text);
    let mut out = String::new();
    let mut i: usize = 0;
    while i < cs.len()
        invariant
            cs@ == text@,
            0 <= i <= cs@.len(),
            out@ == word_chars(text@.subrange(0, i as int)),
        decreases cs@.len() - i,
    {
        assert(text@.subrange(0, i as int + 1).drop_last() =~= text@.subrange(0, i as int));
        let c = cs[i];
        if ('a' <= c && c <= 'z') || ('A' <= c && c <= 'Z') || c == ' ' || c > '\u{7F}' {
            out.push(c);
        }
        i += 1;
    }
    assert(text@.subrange(0, cs@.len() as int) =~= text@);
    out
}

fn same_text(a: &str, b: &str) -> (r: bool)
    ensures
        r == (a@ == b@),
{
    let x = chars_of(a);
    let y = chars_of(b);
    if x.len() != y.len() {
        return false;
    }
    let mut i: usize = 0;
    while i < x.len()
        invariant
            x@ == a@,
            y@ == b@,
            x@.len() == y@.len(),
            0 <= i <= x@.len(),
            forall|j: int| 0 <= j < i ==> x@[j] == y@[j],
        decreases x@.len() - i,
    {
        if x[i] != y[i] {
            return false;
        }
        i += 1;
    }
    assert(a@ =~= b@);
    true
}

fn begins_with(s: &str, prefix: &str) -> (r: bool)
    ensures
        r == (prefix@.len() <= s@.len() && s@.subrange(0, prefix@.len() as int) == prefix@),
{
    let x = chars_of(s);
    let p = chars_of(prefix);
    if p.len() > x.len() {
        return false;
    }
    let mut i: usize = 0;
    while i < p.len()
        invariant
            x@ == s@,
            p@ == prefix@,
            p@.len() <= x@.len(),
            0 <= i <= p@.len(),
            forall|j: int| 0 <= j < i ==> x@[j] == p@[j],
        decreases p@.len() - i,
    {
        if x[i] != p[i] {
            assert(s@.subrange(0, prefix@.len() as int)[i as int] != prefix@[i as int]);
            return false;
        }
        i += 1;
    }
    assert(s@.subrange(0, prefix@.len() as int) =~= prefix@);
    true
}

/// Parts of speech whose tokens carry no content: conjunctions, particles,
/// auxiliary verbs, symbols, articles and pronouns.
pub open spec fn is_function_word(pos: Seq<char>) -> bool {
    pos == "接続詞"@ || pos == "助詞"@ || pos == "助動詞"@ || pos == "記号"@ || pos == "冠詞"@
        || pos == "代名詞"@
}

/// Whether a token with these dictionary details is kept as a content word:
/// not a function word, and a verb only when independent (`自立`) and either in
/// its base form (`基本形`) or of a godan (`五段`) conjugation.
pub open spec fn keeps_details(details: Seq<Seq<char>>) -> bool {
    if is_function_word(details[0]) {
        false
    } else if details[0] == "動詞"@ {
        details[1] == "自立"@ && (details[5] == "基本形"@ || (details[4].len() >= "五段"@.len()
            && details[4].subrange(0, "五段"@.len() as int) == "五段"@))
    } else {
        true
    }
}

/// The views of a vector of strings.
pub open spec fn views_of(v: Seq<String>) -> Seq<Seq<char>> {
    v.map_values(|s: String| s@)
}

/// Whether the word tokenizer keeps a token with these dictionary details.
pub fn keeps_token(details: &Vec<String>) -> (r: bool)
    requires
        details@.len() > 0,
        details@[0]@ == "動詞"@ ==> details@.len() >= 6,
    ensures
        r == keeps_details(views_of(details@)),
{
    let ghost d = views_of(details@);
    assert(d[0] == details@[0]@);
    let pos = details[0].as_str();
    if same_text(pos, "接続詞") || same_text(pos, "助詞") || same_text(pos, "助動詞") || same_text(pos, "記号")
        || same_text(pos, "冠詞") || same_text(pos, "代名詞") {
        return false;
    }
    if same_text(pos, "動詞") {
        assert(d[1] == details@[1]@ && d[4] == details@[4]@ && d[5] == details@[5]@);
        return same_text(details[1].as_str(), "自立") && (same_text(details[5].as_str(), "基本形")
            || begins_with(details[4].as_str(), "五段"));
    }
    true
}

/// Whether a token is empty or white space only.
pub fn is_blank(token: &str) -> (r: bool)
    ensures
        r == forall|i: int| 0 <= i < token@.len() ==> crate::text::is_white_space(#[trigger] token@[i]),
{
    let cs = chars_of(token);
    let mut i: usize = 0;
    while i < cs.len()
        invariant
            cs@ == token@,
            0 <= i <= cs@.len(),
            forall|j: int| 0 <= j < i ==> crate::text::is_white_space(#[trigger] token@[j]),
        decreases cs@.len() - i,
    {
        if !white_space(cs[i]) {
            return false;
        }
        i += 1;
    }
    true
}

/// A token's dictionary details can be read by `keeps_token`.
pub open spec fn details_readable(details: Seq<Seq<char>>) -> bool {
    details.len() > 0 && (details[0] == "動詞"@ ==> details.len() >= 6)
}

/// A token's text is empty or white space only.
pub open spec fn blank(text: Seq<char>) -> bool {
    forall|i: int| 0 <= i < text.len() ==> crate::text::is_white_space(#[trigger] text[i])
}

/// The texts of the content words among `tokens`, in order: tokens whose
/// details `keeps_details` accepts and whose text is not blank.
pub open spec fn content_words(tokens: Seq<(Seq<char>, Seq<Seq<char>>)>) -> Seq<Seq<char>>
    decreases tokens.len(),
{
    if tokens.len() == 0 {
        Seq::empty()
    } else {
        let (text, details) = tokens.last();
        let rest = content_words(tokens.drop_last());
        if keeps_details(details) && !blank(text) {
            rest.push(text)
        } else {
            rest
        }
    }
}

/// The views of tokenizer output: each token's text and its details.
pub open spec fn token_views(tokens: Seq<(String, Vec<String>)>) -> Seq<(Seq<char>, Seq<Seq<char>>)> {
    tokens.map_values(|t: (String, Vec<String>)| (t.0@, views_of(t.1@)))
}

/// The content words among the tokens of a text, each given as its text and
/// its dictionary details.
pub fn content_tokens(tokens: &Vec<(String, Vec<String>)>) -> (r: Vec<String>)
    requires
        forall|i: int| 0 <= i < tokens@.len() ==> details_readable(views_of(#[trigger] tokens@[i].1@)),
    ensures
        crate::words::string_views(r@) == content_words(token_views(tokens@)),
{
    let ghost all = token_views(tokens@);
    let mut out: Vec<String> = Vec::new();
    let mut i: usize = 0;
    while i < tokens.len()
        invariant
            all == token_views(tokens@),
            forall|i: int| 0 <= i < tokens@.len() ==> details_readable(views_of(#[trigger] tokens@[i].1@)),
            0 <= i <= tokens@.len(),
            crate::words::string_views(out@) == content_words(all.subrange(0, i as int)),
        decreases tokens@.len() - i,
    {
        let ghost prev = out@;
        assert(all.subrange(0, i as int + 1).drop_last() =~= all.subrange(0, i as int));
        assert(all.subrange(0, i as int + 1).last() == all[i as int]);
        let details = &tokens[i].1;
        assert(details_readable(views_of(details@)));
        assert(views_of(details@)[0] == details@[0]@);
        let text = tokens[i].0.as_str();
        if keeps_token(details) && !is_blank(text) {
            out.push(tokens[i].0.clone());
            assert(crate::words::string_views(out@) =~= crate::words::string_views(prev).push(tokens@[i as int].0@));
        }
        i += 1;
    }
    assert(all.subrange(0, tokens@.len() as int) =~= all);
    out
}

} // verus!
