use rank_calib::measures::is_ssl_enabled;
use rank_calib::tokens::{content_tokens, is_blank, keeps_token, tokenizer_input, word_input};

fn details(items: &[&str]) -> Vec<String> {
    items.iter().map(|s| s.to_string()).collect()
}

#[test]
fn is_ssl_enabled_looks_for_https_links() {
    assert!(is_ssl_enabled("<a href=\"https://example.com\">x</a>"));
    assert!(!is_ssl_enabled("<a href=\"http://example.com\">x</a>"));
    assert!(!is_ssl_enabled("https:/ /"));
    assert!(!is_ssl_enabled(""));
}

#[test]
fn tokenizer_input_keeps_characters_above_at_sign() {
    assert_eq!(tokenizer_input("a1 b-2@C北"), Some(String::from("abC北")));
    assert_eq!(tokenizer_input("123 !?@"), None);
    assert_eq!(tokenizer_input(""), None);
}

#[test]
fn word_input_keeps_letters_spaces_and_non_ascii() {
    assert_eq!(word_input("Hi, 北海道 2024!"), "Hi 北海道 ");
    assert_eq!(word_input("..."), "");
}

#[test]
fn keeps_token_drops_function_words() {
    assert!(!keeps_token(&details(&["助詞", "格助詞", "一般", "*", "*", "*"])));
    assert!(!keeps_token(&details(&["記号"])));
    assert!(keeps_token(&details(&["名詞", "固有名詞", "地域", "一般", "*", "*"])));
    assert!(keeps_token(&details(&["UNK"])));
}

#[test]
fn keeps_token_filters_verbs() {
    assert!(keeps_token(&details(&["動詞", "自立", "*", "*", "一段", "基本形"])));
    assert!(keeps_token(&details(&["動詞", "自立", "*", "*", "五段・ラ行", "連用形"])));
    assert!(!keeps_token(&details(&["動詞", "自立", "*", "*", "一段", "連用形"])));
    assert!(!keeps_token(&details(&["動詞", "非自立", "*", "*", "五段・ラ行", "基本形"])));
}

#[test]
fn is_blank_detects_white_space_tokens() {
    assert!(is_blank(""));
    assert!(is_blank(" \u{3000}\t"));
    assert!(!is_blank(" a "));
}

#[test]
fn content_tokens_keeps_content_words() {
    let tokens = vec![
        (String::from("北海道"), details(&["名詞", "固有名詞", "地域", "一般", "*", "*"])),
        (String::from("の"), details(&["助詞", "連体化", "*", "*", "*", "*"])),
        (String::from(" "), details(&["名詞", "*", "*", "*", "*", "*"])),
        (String::from("走る"), details(&["動詞", "自立", "*", "*", "五段・ラ行", "基本形"])),
        (String::from("い"), details(&["動詞", "非自立", "*", "*", "一段", "連用形"])),
    ];
    assert_eq!(content_tokens(&tokens), vec!["北海道", "走る"]);
}
