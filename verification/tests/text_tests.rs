use captain_calc::text::{
    chars_lt, chars_of, join_strings, order_by_text, parse_u32, sort_texts, split_tags,
    split_whitespace, stable_order, string_from_chars, trim, SortKey,
};

fn chars(s: &str) -> Vec<char> {
    s.chars().collect()
}

fn texts(words: &[Vec<char>]) -> Vec<String> {
    words.iter().map(|w| w.iter().collect()).collect()
}

#[test]
fn split_whitespace_drops_all_blank_runs() {
    let words = split_whitespace("  計算\t iron_plate  12 \n");
    assert_eq!(texts(&words), vec!["計算", "iron_plate", "12"]);
    assert!(split_whitespace("   ").is_empty());
    assert!(split_whitespace("").is_empty());
}

#[test]
fn split_whitespace_knows_unicode_spaces() {
    let words = split_whitespace("a\u{3000}b\u{00A0}c");
    assert_eq!(texts(&words), vec!["a", "b", "c"]);
}

#[test]
fn parse_u32_reads_decimal_numbers() {
    assert_eq!(parse_u32(&chars("0")), Some(0));
    assert_eq!(parse_u32(&chars("1234")), Some(1234));
    assert_eq!(parse_u32(&chars("+7")), Some(7));
    assert_eq!(parse_u32(&chars("4294967295")), Some(u32::MAX));
}

#[test]
fn parse_u32_refuses_what_str_parse_refuses() {
    assert_eq!(parse_u32(&chars("")), None);
    assert_eq!(parse_u32(&chars("+")), None);
    assert_eq!(parse_u32(&chars("-1")), None);
    assert_eq!(parse_u32(&chars("12a")), None);
    assert_eq!(parse_u32(&chars(" 1")), None);
    assert_eq!(parse_u32(&chars("4294967296")), None);
    for text in ["", "+", "-1", "12a", "1.5", "99999999999"] {
        assert_eq!(parse_u32(&chars(text)), text.parse::<u32>().ok());
    }
}

#[test]
fn trim_strips_both_ends() {
    assert_eq!(trim(&chars("  a b \t")), chars("a b"));
    assert_eq!(trim(&chars("   ")), chars(""));
    assert_eq!(trim(&chars("x")), chars("x"));
}

#[test]
fn split_tags_trims_and_drops_empty_pieces() {
    let tags = split_tags(" smelting, iron ,, ,basic");
    assert_eq!(texts(&tags), vec!["smelting", "iron", "basic"]);
    assert!(split_tags("").is_empty());
    assert!(split_tags(" , ,").is_empty());
}

#[test]
fn join_then_split_gives_the_tags_back() {
    let tags = vec!["a".to_string(), "bb".to_string(), "c".to_string()];
    let joined = join_strings(&tags, ", ");
    assert_eq!(joined, "a, bb, c");
    assert_eq!(texts(&split_tags(&joined)), tags);
    assert_eq!(join_strings(&Vec::new(), ", "), "");
    assert_eq!(join_strings(&vec!["one".to_string()], ", "), "one");
}

#[test]
fn chars_lt_is_code_point_order() {
    assert!(chars_lt(&chars("abc"), &chars("abd")));
    assert!(chars_lt(&chars("ab"), &chars("abc")));
    assert!(!chars_lt(&chars("abc"), &chars("abc")));
    assert!(!chars_lt(&chars("b"), &chars("abc")));
    assert!(chars_lt(&chars(""), &chars("a")));
}

#[test]
fn sort_texts_sorts_like_std() {
    let words: Vec<Vec<char>> = ["pear", "apple", "fig", "apple", "Banana"].iter().map(|w| chars(w)).collect();
    let sorted = sort_texts(&words);
    let mut expected = vec!["pear", "apple", "fig", "apple", "Banana"];
    expected.sort();
    assert_eq!(texts(&sorted), expected);
}

#[test]
fn stable_order_keeps_equal_keys_in_place() {
    let keys = vec![
        SortKey { rank: 1, text: chars("b") },
        SortKey { rank: 0, text: chars("z") },
        SortKey { rank: 1, text: chars("a") },
        SortKey { rank: 1, text: chars("b") },
    ];
    assert_eq!(stable_order(&keys), vec![1, 2, 0, 3]);
    assert!(stable_order(&Vec::new()).is_empty());
}

#[test]
fn order_by_text_is_a_stable_sort() {
    let names = vec!["銅".to_string(), "鐵".to_string(), "銅".to_string(), "a".to_string()];
    assert_eq!(order_by_text(&names), vec![3, 0, 2, 1]);
}

#[test]
fn strings_round_trip_through_chars() {
    let text = "鐵板 iron";
    assert_eq!(chars_of(text), chars(text));
    assert_eq!(string_from_chars(&chars(text)), text);
}
