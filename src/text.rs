use vstd::prelude::*;
use vstd::utf8::encode_utf8;

verus! {

/// std's `String::push` appends one character.
pub assume_specification[ String::push ](s: &mut String, ch: char)
    ensures
        final(s)@ == old(s)@.push(ch),
;

/// The characters that `replace_ws` turns into a plain space: the ideographic
/// space, the Hangul filler, the no-break space and the typographic spaces.
pub open spec fn is_wide_space(c: char) -> bool {
    c == '\u{3000}' || c == '\u{3164}' || c == '\u{00A0}' || c == '\u{1680}' || ('\u{2000}' <= c
        && c <= '\u{200B}') || c == '\u{202F}' || c == '\u{205F}'
}

/// Unicode's White_Space property.
pub open spec fn is_white_space(c: char) -> bool {
    ('\u{0009}' <= c && c <= '\u{000D}') || c == ' ' || c == '\u{0085}' || c == '\u{00A0}' || c
        == '\u{1680}' || ('\u{2000}' <= c && c <= '\u{200A}') || c == '\u{2028}' || c == '\u{2029}'
        || c == '\u{202F}' || c == '\u{205F}' || c == '\u{3000}'
}

fn wide_space(c: char) -> (r: bool)
    ensures
        r == is_wide_space(c),
{
    c == '\u{3000}' || c == '\u{3164}' || c == '\u{00A0}' || c == '\u{1680}' || ('\u{2000}' <= c
        && c <= '\u{200B}') || c == '\u{202F}' || c == '\u{205F}'
}

/// Whether `c` has Unicode's White_Space property.
pub fn white_space(c: char) -> (r: bool)
    ensures
        r == is_white_space(c),
{
    ('\u{0009}' <= c && c <= '\u{000D}') || c == ' ' || c == '\u{0085}' || c == '\u{00A0}' || c
        == '\u{1680}' || ('\u{2000}' <= c && c <= '\u{200A}') || c == '\u{2028}' || c == '\u{2029}'
        || c == '\u{202F}' || c == '\u{205F}' || c == '\u{3000}'
}

/// `s` with every wide space replaced by `' '`.
pub open spec fn spaces_replaced(s: Seq<char>) -> Seq<char> {
    Seq::new(s.len(), |i: int| if is_wide_space(s[i]) { ' ' } else { s[i] })
}

/// The words of `s` (its maximal runs of non-white-space characters), joined
/// by single spaces; also whether a space is owed before the next word.
pub open spec fn words_joined_state(s: Seq<char>) -> (Seq<char>, bool)
    decreases s.len(),
{
    if s.len() == 0 {
        (Seq::empty(), false)
    } else {
        let (out, pending) = words_joined_state(s.drop_last());
        let c = s.last();
        if is_white_space(c) {
            (out, out.len() > 0)
        } else if pending {
            (out.push(' ').push(c), false)
        } else {
            (out.push(c), false)
        }
    }
}

/// The words of `s` joined by single spaces.
pub open spec fn words_joined(s: Seq<char>) -> Seq<char> {
    words_joined_state(s).0
}

/// The characters of `s` outside of `<...>` markup, and whether the end of `s`
/// lies inside a tag.
pub open spec fn markup_stripped_state(s: Seq<char>) -> (Seq<char>, bool)
    decreases s.len(),
{
    if s.len() == 0 {
        (Seq::empty(), false)
    } else {
        let (out, in_tag) = markup_stripped_state(s.drop_last());
        let c = s.last();
        if c == '<' {
            (out, true)
        } else if c == '>' {
            (out, false)
        } else if in_tag {
            (out, in_tag)
        } else {
            (out.push(c), in_tag)
        }
    }
}

/// The characters of `s` outside of `<...>` markup.
pub open spec fn markup_stripped(s: Seq<char>) -> Seq<char> {
    markup_stripped_state(s).0
}

/// `s` without its white-space characters.
pub open spec fn white_space_removed(s: Seq<char>) -> Seq<char>
    decreases s.len(),
{
    if s.len() == 0 {
        Seq::empty()
    } else if is_white_space(s.last()) {
        white_space_removed(s.drop_last())
    } else {
        white_space_removed(s.drop_last()).push(s.last())
    }
}

/// Bytes that the form-urlencoded serializer leaves as they are.
pub open spec fn url_unreserved(b: u8) -> bool {
    b == 0x2A || b == 0x2D || b == 0x2E || (0x30 <= b && b <= 0x39) || (0x41 <= b && b <= 0x5A)
        || b == 0x5F || (0x61 <= b && b <= 0x7A)
}

/// An upper-case hexadecimal digit.
pub open spec fn hex_digit(d: u8) -> char {
    if d < 10 {
        (0x30 + d) as u8 as char
    } else {
        (0x37 + d) as u8 as char
    }
}

/// The form-urlencoded form of one byte.
pub open spec fn url_encoded_byte(b: u8) -> Seq<char> {
    if url_unreserved(b) {
        seq![b as char]
    } else if b == 0x20 {
        seq!['+']
    } else {
        seq!['%', hex_digit(b / 16), hex_digit(b % 16)]
    }
}

/// The form-urlencoded form of a byte string.
pub open spec fn url_encoded(bs: Seq<u8>) -> Seq<char>
    decreases bs.len(),
{
    if bs.len() == 0 {
        Seq::empty()
    } else {
        url_encoded(bs.drop_last()) + url_encoded_byte(bs.last())
    }
}

/// Relies on url's `form_urlencoded::byte_serialize`: bytes in `*-._0-9A-Za-z`
/// unchanged, a space as `+`, any other byte as `%` and two upper-case hex digits.
#[verifier::external_body]
fn url_encode(bytes: &[u8]) -> (r: String)
    ensures
        r@ == url_encoded(bytes@),
{
    url::form_urlencoded::byte_serialize(bytes).collect::<String>()
}

/// The characters of a string, one per entry.
pub fn chars_of(s: &str) -> (r: Vec<char>)
    ensures
        r@ == s@,
{
    let n = s.unicode_len();
    let mut r: Vec<char> = Vec::new();
    let mut i: usize = 0;
    while i < n
        invariant
            n == s@.len(),
            0 <= i <= n,
            r@ == s@.subrange(0, i as int),
        decreases n - i,
    {
        r.push(s.get_char(i));
        i += 1;
        assert(r@ =~= s@.subrange(0, i as int));
    }
    assert(r@ =~= s@);
    r
}

/// Replaces each wide space (see `is_wide_space`) with `' '`.
pub fn replace_wide_spaces(s: &str) -> (r: String)
    ensures
        r@ == spaces_replaced(s@),
{
    let cs = chars_of(s);
    let mut r = String::new();
    let mut i: usize = 0;
    while i < cs.len()
        invariant
            cs@ == s@,
            0 <= i <= cs@.len(),
            r@ == spaces_replaced(s@).subrange(0, i as int),
        decreases cs@.len() - i,
    {
        let c = cs[i];
        if wide_space(c) {
            r.push(' ');
        } else {
            r.push(c);
        }
        i += 1;
        assert(r@ =~= spaces_replaced(s@).subrange(0, i as int));
    }
    assert(r@ =~= spaces_replaced(s@));
    r
}

/// Collapses each run of white space into one space and drops white space at
/// both ends: the words of `s` joined by single spaces.
pub fn join_words(s: &str) -> (r: String)
    ensures
        r@ == words_joined(s@),
{
    let cs = chars_of(s);
    let mut r = String::new();
    let mut pending = false;
    let mut i: usize = 0;
    while i < cs.len()
        invariant
            cs@ == s@,
            0 <= i <= cs@.len(),
            (r@, pending) == words_joined_state(s@.subrange(0, i as int)),
        decreases cs@.len() - i,
    {
        let c = cs[i];
        assert(s@.subrange(0, i as int + 1).drop_last() =~= s@.subrange(0, i as int));
        if white_space(c) {
            pending = r.unicode_len() > 0;
        } else {
            if pending {
                r.push(' ');
            }
            r.push(c);
            pending = false;
        }
        i += 1;
    }
    assert(s@.subrange(0, cs@.len() as int) =~= s@);
    r
}

/// Drops everything between `<` and `>`, the brackets included.
pub fn strip_markup(s: &str) -> (r: String)
    ensures
        r@ == markup_stripped(s@),
{
    let cs = chars_of(s);
    let mut r = String::new();
    let mut in_tag = false;
    let mut i: usize = 0;
    while i < cs.len()
        invariant
            cs@ == s@,
            0 <= i <= cs@.len(),
            (r@, in_tag) == markup_stripped_state(s@.subrange(0, i as int)),
        decreases cs@.len() - i,
    {
        let c = cs[i];
        assert(s@.subrange(0, i as int + 1).drop_last() =~= s@.subrange(0, i as int));
        if c == '<' {
            in_tag = true;
        } else if c == '>' {
            in_tag = false;
        } else if !in_tag {
            r.push(c);
        }
        i += 1;
    }
    assert(s@.subrange(0, cs@.len() as int) =~= s@);
    r
}

/// Drops every white-space character.
pub fn remove_whitespace(input: &str) -> (r: String)
    ensures
        r@ == white_space_removed(input@),
{
    let cs = chars_of(input);
    let mut r = String::new();
    let mut i: usize = 0;
    while i < cs.len()
        invariant
            cs@ == input@,
            0 <= i <= cs@.len(),
            r@ == white_space_removed(input@.subrange(0, i as int)),
        decreases cs@.len() - i,
    {
        let c = cs[i];
        assert(input@.subrange(0, i as int + 1).drop_last() =~= input@.subrange(0, i as int));
        if !white_space(c) {
            r.push(c);
        }
        i += 1;
    }
    assert(input@.subrange(0, cs@.len() as int) =~= input@);
    r
}

/// Text clean-up operations on string types.
pub trait Formatter {
    /// The characters of the text.
    spec fn text(&self) -> Seq<char>;

    /// Replaces each wide space with `' '`.
    fn replace_ws(&self) -> (r: String)
        ensures
            r@ == spaces_replaced(self.text()),
    ;

    /// The words of the text joined by single spaces.
    fn format_ws(&self) -> (r: String)
        ensures
            r@ == words_joined(self.text()),
    ;

    /// The text's UTF-8 bytes in form-urlencoded form.
    fn format_url(&self) -> (r: String)
        ensures
            r@ == url_encoded(encode_utf8(self.text())),
    ;

    /// The text without its `<...>` markup.
    fn format_html(&self) -> (r: String)
        ensures
            r@ == markup_stripped(self.text()),
    ;
}

impl Formatter for String {
    open spec fn text(&self) -> Seq<char> {
        self@
    }

    fn replace_ws(&self) -> (r: String) {
        replace_wide_spaces(self.as_str())
    }

    fn format_ws(&self) -> (r: String) {
        join_words(self.as_str())
    }

    fn format_url(&self) -> (r: String) {
        url_encode(self.as_str().as_bytes())
    }

    fn format_html(&self) -> (r: String) {
        strip_markup(self.as_str())
    }
}

impl<'a> Formatter for &'a str {
    open spec fn text(&self) -> Seq<char> {
        (*self)@
    }

    fn replace_ws(&self) -> (r: String) {
        replace_wide_spaces(*self)
    }

    fn format_ws(&self) -> (r: String) {
        join_words(*self)
    }

    fn format_url(&self) -> (r: String) {
        url_encode((*self).as_bytes())
    }

    fn format_html(&self) -> (r: String) {
        strip_markup(*self)
    }
}

/// `word` occurs in `sentence` as a run of consecutive characters.
pub open spec fn occurs_in(word: Seq<char>, sentence: Seq<char>) -> bool {
    exists|i: int|
        0 <= i && i + word.len() <= sentence.len() && #[trigger] sentence.subrange(i, i + word.len())
            == word
}

fn matches_at(w: &Vec<char>, s: &Vec<char>, i: usize) -> (r: bool)
    requires
        i + w@.len() <= s@.len(),
    ensures
        r == (s@.subrange(i as int, i + w@.len()) == w@),
{
    let n = s.len();
    let mut k: usize = 0;
    while k < w.len()
        invariant
            n == s@.len(),
            i + w@.len() <= s@.len(),
            0 <= k <= w@.len(),
            forall|j: int| 0 <= j < k ==> s@[i + j] == w@[j],
        decreases w@.len() - k,
    {
        if s[i + k] != w[k] {
            assert(s@.subrange(i as int, i + w@.len())[k as int] != w@[k as int]);
            return false;
        }
        k += 1;
    }
    assert(s@.subrange(i as int, i + w@.len()) =~= w@);
    true
}

/// Whether `word` occurs in `sentence`.
pub fn contains_word(word: &str, sentence: &str) -> (r: bool)
    ensures
        r == occurs_in(word@, sentence@),
{
    let w = chars_of(word);
    let s = chars_of(sentence);
    if w.len() > s.len() {
        return false;
    }
    let last = s.len() - w.len();
    let mut i: usize = 0;
    while i < last
        invariant
            w@ == word@,
            s@ == sentence@,
            last == s@.len() - w@.len(),
            0 <= i <= last,
            forall|j: int| 0 <= j < i ==> #[trigger] s@.subrange(j, j + w@.len()) != w@,
        decreases last - i,
    {
        if matches_at(&w, &s, i) {
            return true;
        }
        i += 1;
    }
    matches_at(&w, &s, last)
}

/// Strips the `<...>` markup from each string.
pub fn vec_format(vecs: Vec<String>) -> (r: Vec<String>)
    ensures
        r@.len() == vecs@.len(),
        forall|i: int| 0 <= i < r@.len() ==> #[trigger] r@[i]@ == markup_stripped(vecs@[i]@),
{
    let mut r: Vec<String> = Vec::new();
    let mut i: usize = 0;
    while i < vecs.len()
        invariant
            0 <= i <= vecs@.len(),
            r@.len() == i,
            forall|k: int| 0 <= k < i ==> #[trigger] r@[k]@ == markup_stripped(vecs@[k]@),
        decreases vecs@.len() - i,
    {
        r.push(vecs[i].format_html());
        i += 1;
    }
    r
}

} // verus!
