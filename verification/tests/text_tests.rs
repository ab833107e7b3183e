use engine_core::text::{chars_le, chars_of, decimal_string, joined};

#[test]
fn decimal_of_single_digits() {
    for n in 0..10usize {
        assert_eq!(decimal_string(n), n.to_string());
    }
}

#[test]
fn decimal_of_larger_numbers() {
    assert_eq!(decimal_string(10), "10");
    assert_eq!(decimal_string(99), "99");
    assert_eq!(decimal_string(100), "100");
    assert_eq!(decimal_string(12345), "12345");
    assert_eq!(decimal_string(1_000_000), "1000000");
    assert_eq!(decimal_string(usize::MAX), usize::MAX.to_string());
}

#[test]
fn joined_puts_tail_behind_head() {
    assert_eq!(joined("$", "name"), "$name");
    assert_eq!(joined("", "name"), "name");
    assert_eq!(joined("_id.", ""), "_id.");
}

#[test]
fn chars_of_lists_every_character() {
    assert_eq!(chars_of(""), Vec::<char>::new());
    assert_eq!(chars_of("ab"), vec!['a', 'b']);
    assert_eq!(chars_of("caf\u{e9}\u{1F600}"), vec!['c', 'a', 'f', '\u{e9}', '\u{1F600}']);
}

#[test]
fn chars_le_is_the_order_of_strings() {
    let texts = ["", "a", "aa", "ab", "b", "B", "\u{e9}", "\u{1F600}", "a\u{e9}", "abc", "0", "~"];
    for a in texts {
        for b in texts {
            assert_eq!(chars_le(&chars_of(a), &chars_of(b)), a <= b, "{:?} <= {:?}", a, b);
        }
    }
}
