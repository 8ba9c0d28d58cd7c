use rnr::order::{not_after, sorted_places};
use rnr::table::Table;
use rnr::text::{
    chained, chars_of, clone_bytes, clone_opt, clone_texts, holds_char, holds_text, join_spaced,
    owned, parse_signed, parse_unsigned, part, push_decimal, signed_to_string, split_words,
    text_is, trim_dot_slash,
};

fn strings(words: &[&str]) -> Vec<String> {
    words.iter().map(|w| w.to_string()).collect()
}

#[test]
fn numbers_are_written() {
    let mut s = String::from("n=");
    push_decimal(&mut s, 1090);
    assert_eq!(s, "n=1090");
    assert_eq!(signed_to_string(0), "0");
    assert_eq!(signed_to_string(-256), "-256");
    assert_eq!(signed_to_string(i32::MIN), "-2147483648");
}

#[test]
fn numbers_are_read() {
    assert_eq!(parse_unsigned("17"), Some(17));
    assert_eq!(parse_unsigned("+17"), Some(17));
    assert_eq!(parse_unsigned("007"), Some(7));
    assert_eq!(parse_unsigned("18446744073709551615"), Some(u64::MAX));
    assert_eq!(parse_signed("-2147483648"), Some(i32::MIN));
    assert_eq!(parse_signed("+5"), Some(5));
    assert_eq!(parse_signed("-0"), Some(0));
}

#[test]
fn what_is_no_number_is_refused() {
    for text in ["", "+", "-1", "1 ", " 1", "1\n", "1a", "18446744073709551616", "\u{0661}"] {
        assert_eq!(parse_unsigned(text), None, "{:?}", text);
        assert_eq!(text.parse::<u64>().ok(), None);
    }
    for text in ["", "-", "+", "+-1", "2147483648", "-2147483649", "5\n"] {
        assert_eq!(parse_signed(text), None, "{:?}", text);
        assert_eq!(text.parse::<i32>().ok(), None);
    }
}

#[test]
fn written_numbers_are_read_back() {
    for n in [0_u64, 9, 10, 99, 100, 12345, u64::MAX] {
        let mut s = String::new();
        push_decimal(&mut s, n);
        assert_eq!(parse_unsigned(&s), Some(n));
    }
    for n in [0_i32, -1, 7, -10, i32::MAX, i32::MIN] {
        assert_eq!(parse_signed(&signed_to_string(n)), Some(n));
    }
}

#[test]
fn words_are_split_at_ascii_whitespace() {
    assert_eq!(split_words("  after\ta b\n"), strings(&["after", "a", "b"]));
    assert_eq!(split_words(" \t\r\n\u{c}"), strings(&[]));
    assert_eq!(split_words("a\u{a0}b\u{b}c"), strings(&["a\u{a0}b\u{b}c"]));
}

#[test]
fn joined_words_are_split_again() {
    let words = strings(&["backup", "sync/daily", "x"]);
    assert_eq!(join_spaced(&words), "backup sync/daily x");
    assert_eq!(split_words(&join_spaced(&words)), words);
    assert_eq!(join_spaced(&strings(&[])), "");
    assert_eq!(join_spaced(&strings(&["", ""])), " ");
}

#[test]
fn leading_dot_slashes_are_trimmed() {
    assert_eq!(trim_dot_slash("./././job"), "job");
    assert_eq!(trim_dot_slash("../job"), "../job");
    assert_eq!(trim_dot_slash("a./b"), "a./b");
    assert_eq!(trim_dot_slash("./"), "");
    assert_eq!(trim_dot_slash("."), ".");
}

#[test]
fn small_text_helpers() {
    assert!(text_is("j\u{f6}b", "j\u{f6}b"));
    assert!(!text_is("job", "jo"));
    assert!(!text_is("job", "jab"));
    assert!(holds_char("/bin/true", '/'));
    assert!(!holds_char("true", '/'));
    assert!(holds_text(&strings(&["a", "b"]), "b"));
    assert!(!holds_text(&strings(&["a", "b"]), "ab"));
    assert_eq!(chained("ab", "cd"), "abcd");
    assert_eq!(owned("x"), "x");
    assert_eq!(part(&chars_of("abcde"), 1, 3), "bc");
    assert_eq!(clone_texts(&strings(&["a", "b"])), strings(&["a", "b"]));
    assert_eq!(clone_opt(&Some("a".to_string())), Some("a".to_string()));
    assert_eq!(clone_opt(&None), None);
    assert_eq!(clone_bytes(&vec![1, 2, 255]), vec![1, 2, 255]);
}

#[test]
fn bytes_are_ordered_as_in_a_dictionary() {
    assert!(not_after(&b"".to_vec(), &b"a".to_vec()));
    assert!(not_after(&b"a".to_vec(), &b"a".to_vec()));
    assert!(not_after(&b"a".to_vec(), &b"ab".to_vec()));
    assert!(!not_after(&b"ab".to_vec(), &b"a".to_vec()));
    assert!(!not_after(&b"b".to_vec(), &b"ab".to_vec()));
}

#[test]
fn equal_keys_keep_their_order() {
    let keys: Vec<Vec<u8>> = vec![b"b".to_vec(), b"a".to_vec(), b"b".to_vec(), b"".to_vec()];
    assert_eq!(sorted_places(&keys), vec![3, 1, 0, 2]);
}

#[test]
fn a_table_keeps_one_value_under_each_text() {
    let mut t: Table<u32> = Table::new();
    assert_eq!(t.len(), 0);
    t.insert("a".to_string(), 1);
    t.insert("b".to_string(), 2);
    t.insert("c".to_string(), 3);
    t.insert("b".to_string(), 20);
    assert_eq!(t.len(), 3);
    assert_eq!(t.get("b"), Some(&20));
    assert_eq!(t.find("b"), Some(1));
    assert_eq!(t.key_at(2), "c");
    t.set_at(0, 10);
    assert_eq!(*t.value_at(0), 10);
    assert_eq!(t.remove("b"), Some(20));
    assert_eq!(t.remove("b"), None);
    assert!(!t.contains_key("b"));
    assert_eq!(t.find("c"), Some(1));
    assert_eq!(t.get("a"), Some(&10));
}
