use renderkit::text::Text;

#[test]
fn digit_characters_map_to_glyphs() {
    assert_eq!(Text::from_digit('0'), Text::Digit0);
    assert_eq!(Text::from_digit('7'), Text::Digit7);
    assert_eq!(Text::from_digit('9'), Text::Digit9);
}

#[test]
fn zero_has_one_digit() {
    assert_eq!(Text::digits(0), vec![Text::Digit0]);
}

#[test]
fn digits_most_significant_first() {
    assert_eq!(
        Text::digits(1203),
        vec![Text::Digit1, Text::Digit2, Text::Digit0, Text::Digit3]
    );
}

#[test]
fn digits_of_largest_counter() {
    assert_eq!(Text::digits(i32::MAX).len(), 10);
    assert_eq!(Text::digits(i32::MAX)[0], Text::Digit2);
    assert_eq!(Text::digits(i32::MAX)[9], Text::Digit7);
}
