//! Tests of keyed maps, texts and bits.
use libsurfer::bits::{mask_low_bits, power_of_two};
use libsurfer::keymap::KeyMap;
use libsurfer::text::{
    chars_of, comes_before, contains_text, decimal_text, digit_to_char, first_char, join_text,
    push_hexadecimal, push_signed, same_text, text_from,
};

#[test]
fn maps_keep_their_keys_in_order() {
    let mut map = KeyMap::new();
    assert_eq!(map.len(), 0);
    for (key, value) in [("b", 2), ("ab", 1), ("", 0), ("b", 3), ("c", 4)] {
        map.insert(key.to_string(), value);
    }
    let entries: Vec<(&str, i32)> = (0..map.len())
        .map(|i| (map.entry(i).0.as_str(), map.entry(i).1))
        .collect();
    assert_eq!(entries, [("", 0), ("ab", 1), ("b", 3), ("c", 4)]);
    assert_eq!(map.get("b"), Some(&3));
    assert_eq!(map.get("a"), None);
    assert_eq!(map.get("d"), None);
    let copy = map.clone();
    assert_eq!(copy.len(), 4);
    assert_eq!(copy.get("c"), Some(&4));
}

#[test]
fn texts_are_ordered_like_strings() {
    let texts = ["", "a", "ab", "b", "\u{e4}", "\u{1f600}"];
    for a in texts {
        for b in texts {
            assert_eq!(comes_before(a, b), a < b, "{a} {b}");
            assert_eq!(same_text(a, b), a == b);
            assert_eq!(contains_text(a, b), a.contains(b), "{a} {b}");
        }
    }
    assert!(contains_text("tb.data.x", "data"));
    assert!(!contains_text("tb.dat", "data"));
}

#[test]
fn texts_are_taken_apart_and_joined() {
    let chars = chars_of("a\u{e4}z");
    assert_eq!(chars, ['a', '\u{e4}', 'z']);
    assert_eq!(text_from(&chars, 1), "\u{e4}z");
    assert_eq!(text_from(&chars, 3), "");
    assert_eq!(first_char("za"), Some('z'));
    assert_eq!(first_char(""), None);
    let parts = vec!["tb".to_string(), "dut".to_string(), "x".to_string()];
    assert_eq!(join_text(&parts, ", "), "tb, dut, x");
    assert_eq!(join_text(&vec![], ", "), "");
}

#[test]
fn numbers_are_written() {
    for n in [0, 7, 10, 99, 100, u64::MAX] {
        assert_eq!(decimal_text(n), n.to_string());
    }
    for n in [0, -1, 42, i64::MIN, i64::MAX] {
        let mut text = "n=".to_string();
        push_signed(&mut text, n);
        assert_eq!(text, format!("n={n}"));
    }
    let mut text = String::new();
    push_hexadecimal(&mut text, 0xabc, 5);
    assert_eq!(text, "00abc");
    push_hexadecimal(&mut text, 0xabc, 2);
    assert_eq!(text, "00abcbc");
    assert_eq!(digit_to_char(15), 'f');
}

#[test]
fn bits_are_masked() {
    assert_eq!(power_of_two(0), 1);
    assert_eq!(power_of_two(63), 1 << 63);
    assert_eq!(mask_low_bits(-1, 64), u64::MAX);
    assert_eq!(mask_low_bits(-1, 4), 15);
    assert_eq!(mask_low_bits(-1148, 16), 0xfb84);
    assert_eq!(mask_low_bits(i64::MIN, 63), 0);
    assert_eq!(mask_low_bits(5, 0), 0);
}
