use monotext::text::{
    abbreviate, decimal_string, int_to_roman, int_to_roman_lower, make_spaces, month_name,
    replace_invalid_asciis, truncate_to_width_left,
};
use monotext::render::ordinal_label;
use monotext::OrderedListType;

#[test]
fn roman_numerals_use_subtractive_notation() {
    assert_eq!(int_to_roman(1), "I");
    assert_eq!(int_to_roman(4), "IV");
    assert_eq!(int_to_roman(9), "IX");
    assert_eq!(int_to_roman(14), "XIV");
    assert_eq!(int_to_roman(40), "XL");
    assert_eq!(int_to_roman(90), "XC");
    assert_eq!(int_to_roman(900), "CM");
    assert_eq!(int_to_roman(1994), "MCMXCIV");
    assert_eq!(int_to_roman(0), "0");
    assert_eq!(int_to_roman_lower(4), "iv");
    assert_eq!(int_to_roman_lower(9), "ix");
    assert_eq!(int_to_roman_lower(14), "xiv");
    assert_eq!(int_to_roman_lower(1994), "mcmxciv");
}

#[test]
fn decimal_ordinals_count_from_one_past_start() {
    let style = OrderedListType::DecimalNumbers;
    assert_eq!(ordinal_label(0, 0, &style), "1");
    assert_eq!(ordinal_label(1, 0, &style), "2");
    assert_eq!(ordinal_label(2, 0, &style), "3");
    assert_eq!(ordinal_label(0, 9, &style), "10");
}

#[test]
fn letter_ordinals_wrap_around_the_alphabet() {
    let lower = OrderedListType::LowerCaseLetters;
    assert_eq!(ordinal_label(0, 25, &lower), "z");
    assert_eq!(ordinal_label(1, 25, &lower), "a");
    assert_eq!(ordinal_label(2, 25, &lower), "b");
    assert_eq!(ordinal_label(0, 0, &lower), "a");
    let upper = OrderedListType::UpperCaseLetters;
    assert_eq!(ordinal_label(0, 0, &upper), "A");
    assert_eq!(ordinal_label(2, 0, &upper), "C");
}

#[test]
fn roman_ordinals_use_the_footer_numeral_routine() {
    assert_eq!(ordinal_label(0, 3, &OrderedListType::LowercaseRomanNumerals), "iv");
    assert_eq!(ordinal_label(0, 0, &OrderedListType::LowercaseRomanNumerals), "i");
    assert_eq!(ordinal_label(1, 0, &OrderedListType::UppercaseRomanNumerals), "II");
}

#[test]
fn truncation_keeps_leading_characters() {
    assert_eq!(truncate_to_width_left("hello", 3), "hel");
    assert_eq!(truncate_to_width_left("hello", 10), "hello");
    assert_eq!(truncate_to_width_left("hello", 0), "");
    assert_eq!(abbreviate("hello", 10), "hello");
    assert_eq!(abbreviate("hellohellohello", 12), "hellohellohe");
}

#[test]
fn transliteration_writes_out_accents() {
    assert_eq!(replace_invalid_asciis("Gr\u{00FC}\u{00DF}e"), "Gruesse");
    assert_eq!(replace_invalid_asciis("\u{00C4}\u{00E4}\u{00D6}\u{00F6}\u{00DC}"), "AEaeOEoeUE");
    assert_eq!(replace_invalid_asciis("plain ascii"), "plain ascii");
}

#[test]
fn month_names_are_english() {
    assert_eq!(month_name(1), "January");
    assert_eq!(month_name(6), "June");
    assert_eq!(month_name(12), "December");
}

#[test]
fn decimal_formatting_matches() {
    assert_eq!(decimal_string(0), "0");
    assert_eq!(decimal_string(7), "7");
    assert_eq!(decimal_string(1234), "1234");
    assert_eq!(decimal_string(1000000), "1000000");
}

#[test]
fn spaces_builder_produces_spaces() {
    assert_eq!(make_spaces(0), "");
    assert_eq!(make_spaces(4), "    ");
}
