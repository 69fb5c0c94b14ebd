use roomsync::text::{clamp, push_decimal, TEXT_MAX_LEN};

#[test]
fn cap_is_eight_thousand_bytes() {
    assert_eq!(TEXT_MAX_LEN, 8000);
}

#[test]
fn short_text_is_kept() {
    assert_eq!(clamp("hello".to_string()), "hello");
    assert_eq!(clamp(String::new()), "");
}

#[test]
fn text_at_the_cap_is_kept() {
    let text = "a".repeat(8000);
    assert_eq!(clamp(text.clone()), text);
}

#[test]
fn long_ascii_text_is_cut_at_the_cap() {
    let text = "b".repeat(8001);
    let out = clamp(text.clone());
    assert_eq!(out.len(), 8000);
    assert!(text.starts_with(&out));
    let longer = "c".repeat(20000);
    assert_eq!(clamp(longer), "c".repeat(8000));
}

#[test]
fn cut_does_not_split_a_two_byte_character() {
    // 7999 bytes, then a character of two bytes that straddles the cap.
    let mut text = "a".repeat(7999);
    text.push('é');
    text.push_str("tail");
    let out = clamp(text.clone());
    assert_eq!(out, "a".repeat(7999));
    assert!(text.starts_with(&out));
}

#[test]
fn cut_does_not_split_a_four_byte_character() {
    for lead in 7997..=8000usize {
        let mut text = "a".repeat(lead);
        text.push('😀');
        text.push('z');
        let out = clamp(text.clone());
        assert!(out.len() <= 8000);
        assert!(text.starts_with(&out));
        if lead + 4 <= 8000 {
            assert_eq!(out.len(), 8000.min(lead + 5));
        } else {
            assert_eq!(out.len(), lead);
        }
    }
}

#[test]
fn cut_keeps_the_longest_prefix_of_wide_characters() {
    // 3 bytes each: 2666 characters take 7998 bytes, one more would not fit.
    let text = "€".repeat(3000);
    let out = clamp(text);
    assert_eq!(out.len(), 7998);
    assert_eq!(out.chars().count(), 2666);
}

#[test]
fn decimal_is_appended() {
    let mut out = "n".to_string();
    push_decimal(&mut out, 0);
    assert_eq!(out, "n0");
    push_decimal(&mut out, 12345);
    assert_eq!(out, "n012345");
    let mut max = String::new();
    push_decimal(&mut max, u32::MAX);
    assert_eq!(max, "4294967295");
    let mut ten = String::new();
    push_decimal(&mut ten, 10);
    assert_eq!(ten, "10");
}
