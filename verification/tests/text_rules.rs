use apostle_client::text::{append_decimal, chars_of, comes_before, is_white_space, trimmed};

#[test]
fn white_space_is_that_of_the_standard_library() {
    for code in 0..=0x10ffffu32 {
        if let Some(c) = char::from_u32(code) {
            assert_eq!(is_white_space(c), c.is_whitespace());
        }
    }
}

#[test]
fn trimming_is_that_of_the_standard_library() {
    let parts = ["", " ", "a", "\t\n", "é b", "\u{3000}", "\u{200b}", "漢 字", "\u{85}\u{a0}"];
    for a in parts {
        for b in parts {
            for c in parts {
                let text = format!("{a}{b}{c}");
                assert_eq!(trimmed(&text), text.trim());
                assert_eq!(trimmed(trimmed(&text)), text.trim());
            }
        }
    }
}

#[test]
fn characters_come_in_order() {
    assert_eq!(chars_of("aé漢"), ['a', 'é', '漢']);
    assert!(chars_of("").is_empty());
}

#[test]
fn the_order_of_texts_is_that_of_the_standard_library() {
    let texts = ["", "a", "aa", "b", "B", "é", "漢", "😀", "\u{ffff}", "a\u{0}", "ab"];
    for a in texts {
        for b in texts {
            assert_eq!(comes_before(a, b), a < b);
        }
    }
}

#[test]
fn decimals_are_those_of_the_standard_library() {
    for n in [0, 1, 9, 10, 99, 100, 255, 49153, 1_000_000_007, u64::MAX - 1, u64::MAX] {
        let mut out = String::from("n=");
        append_decimal(&mut out, n);
        assert_eq!(out, format!("n={n}"));
    }
}
