use rank_calib::extract::{
    clean_fragments, compact_fragments, extract_element, extract_h0, extract_h1, extract_h2, extract_tag_content,
    extract_title, first_title_fits, title40,
};
use rank_calib::tags::{HTags, HtmlTags, TextTags};
use rank_calib::text::{contains_word, remove_whitespace, vec_format, Formatter};
use rank_calib::words::{unique_strings, unique_strings_with_count, word_distribution};

#[test]
fn replace_ws_turns_wide_spaces_into_spaces() {
    let s = String::from("a\u{3000}b\u{00A0}c\u{200B}d");
    assert_eq!(s.replace_ws(), "a b c d");
    assert_eq!("x\u{3164}y".replace_ws(), "x y");
    assert_eq!("plain".replace_ws(), "plain");
}

#[test]
fn format_ws_collapses_white_space() {
    assert_eq!("  hello \t world \n ".format_ws(), "hello world");
    assert_eq!(String::from("a\u{3000}\u{3000}b").format_ws(), "a b");
    assert_eq!("   ".format_ws(), "");
    assert_eq!("".format_ws(), "");
}

#[test]
fn format_url_encodes_form_style() {
    assert_eq!("a b&c".format_url(), "a+b%26c");
    assert_eq!(String::from("日本").format_url(), "%E6%97%A5%E6%9C%AC");
    assert_eq!("A-z_0.9*~".format_url(), "A-z_0.9*%7E");
}

#[test]
fn format_html_strips_markup() {
    assert_eq!("<p>Hi <b>there</b></p>".format_html(), "Hi there");
    assert_eq!(String::from("a<br/>b>c").format_html(), "abc");
    assert_eq!("no tags".format_html(), "no tags");
}

#[test]
fn remove_whitespace_drops_all_white_space() {
    assert_eq!(remove_whitespace(" a b\tc\u{3000}d\n"), "abcd");
    assert_eq!(remove_whitespace(""), "");
}

#[test]
fn contains_word_finds_substrings() {
    assert!(contains_word("海道", "北海道の旅"));
    assert!(contains_word("", "abc"));
    assert!(contains_word("abc", "abc"));
    assert!(!contains_word("abd", "abcabc"));
    assert!(!contains_word("long word", "long"));
}

#[test]
fn vec_format_strips_each_string() {
    let v = vec![String::from("<a href='x'>link</a>"), String::from("plain"), String::new()];
    assert_eq!(vec_format(v), vec!["link", "plain", ""]);
}

#[test]
fn unique_strings_keeps_first_occurrences() {
    let v = vec!["a", "b", "a", "c", "b"];
    assert_eq!(unique_strings(v), vec!["a", "b", "c"]);
    let empty: Vec<&str> = Vec::new();
    assert_eq!(unique_strings(empty).len(), 0);
}

#[test]
fn unique_strings_with_count_filters_and_sorts() {
    let v = vec!["a", "b", "a", "c", "b", "a"];
    assert_eq!(unique_strings_with_count(v.clone(), 2), vec![("a", 3), ("b", 2)]);
    let all = unique_strings_with_count(v.clone(), 1);
    assert_eq!(all.len(), 3);
    assert_eq!(all[0], ("a", 3));
    assert_eq!(all[2], ("c", 1));
    assert_eq!(unique_strings_with_count(v, 4).len(), 0);
}

#[test]
fn word_distribution_counts_every_word() {
    let v: Vec<String> = ["x", "y", "x", "z", "x", "y"].iter().map(|s| s.to_string()).collect();
    let d = word_distribution(v);
    assert_eq!(d, vec![(String::from("x"), 3), (String::from("y"), 2), (String::from("z"), 1)]);
    assert_eq!(word_distribution(Vec::new()).len(), 0);
}

#[test]
fn clean_fragments_cleans_each_fragment() {
    let raw = vec![String::from("  A\u{3000}\u{3000}B \n"), String::from("C")];
    assert_eq!(clean_fragments(&raw), vec!["A B", "C"]);
}

const PAGE: &str = "<html><head><title> My  Page </title></head><body><h1>A\u{3000}B</h1><h1>\n C <b>D</b></h1><p>text</p></body></html>";

#[test]
fn extract_element_selects_and_cleans() {
    let h1 = extract_element("h1", PAGE).unwrap();
    assert_eq!(h1, vec!["A B", "C <b>D</b>"]);
    assert_eq!(extract_element("title", PAGE).unwrap(), vec!["My Page"]);
    assert_eq!(extract_element("h2", PAGE).unwrap().len(), 0);
    assert!(extract_element("h1[", PAGE).is_none());
}

#[test]
fn title40_checks_the_first_title() {
    assert_eq!(title40(PAGE), Some(true));
    let long = format!("<html><head><title>{}</title></head></html>", "x".repeat(41));
    assert_eq!(title40(&long), Some(false));
    let exact = format!("<html><head><title>{}</title></head></html>", "北".repeat(40));
    assert_eq!(title40(&exact), Some(true));
    assert_eq!(title40("<html><body>no title</body></html>"), None);
}

#[test]
fn first_title_fits_counts_characters() {
    assert_eq!(first_title_fits(&Vec::new()), None);
    assert_eq!(first_title_fits(&vec!["é".repeat(40)]), Some(true));
    assert_eq!(first_title_fits(&vec!["a".repeat(41), String::new()]), Some(false));
}

#[test]
fn tag_counts_start_at_zero() {
    let h = HTags::default();
    assert_eq!((h.h1, h.h6), (0, 0));
    let t = TextTags::default();
    assert_eq!(t.var_, 0);
    let all = HtmlTags::default();
    assert_eq!(all.headings.h3, 0);
    assert_eq!(all.media.iframe, 0);
    assert_eq!(all.wbr, 0);
}

#[test]
fn extract_tag_content_removes_white_space() {
    assert_eq!(extract_tag_content(PAGE, "h1").unwrap(), vec!["AB", "C<b>D</b>"]);
    assert_eq!(extract_title(PAGE).unwrap(), vec!["MyPage"]);
    assert_eq!(extract_h1(PAGE).unwrap().len(), 2);
    assert_eq!(extract_h0(PAGE).unwrap().len(), 0);
    assert_eq!(extract_h2(PAGE).unwrap().len(), 0);
    assert!(extract_tag_content(PAGE, "::").is_none());
}

#[test]
fn compact_fragments_removes_all_white_space() {
    let raw = vec![String::from(" a b\n"), String::new()];
    assert_eq!(compact_fragments(&raw), vec!["ab", ""]);
}
