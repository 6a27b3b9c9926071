use todo::TokenRef;
use todo::resolve::classify;

#[test]
fn classify_numeric_token_is_id() {
    assert_eq!(classify("123"), TokenRef::Id(123));
}

#[test]
fn classify_negative_number_is_id() {
    assert_eq!(classify("-5"), TokenRef::Id(-5));
}

#[test]
fn classify_plus_sign_number_is_id() {
    assert_eq!(classify("+7"), TokenRef::Id(7));
}

#[test]
fn classify_text_is_title() {
    assert_eq!(classify("buy milk"), TokenRef::Title);
}

#[test]
fn classify_empty_is_title() {
    assert_eq!(classify(""), TokenRef::Title);
}

#[test]
fn classify_trailing_letters_is_title() {
    assert_eq!(classify("12a"), TokenRef::Title);
}

#[test]
fn classify_leading_space_is_title() {
    assert_eq!(classify(" 1"), TokenRef::Title);
}

#[test]
fn classify_sign_alone_is_title() {
    assert_eq!(classify("-"), TokenRef::Title);
    assert_eq!(classify("+"), TokenRef::Title);
}

#[test]
fn classify_i64_extremes_are_ids() {
    assert_eq!(classify("9223372036854775807"), TokenRef::Id(i64::MAX));
    assert_eq!(classify("-9223372036854775808"), TokenRef::Id(i64::MIN));
}

#[test]
fn classify_out_of_range_is_title() {
    assert_eq!(classify("9223372036854775808"), TokenRef::Title);
    assert_eq!(classify("-9223372036854775809"), TokenRef::Title);
    assert_eq!(classify("99999999999999999999999"), TokenRef::Title);
}

#[test]
fn classify_decimal_point_is_title() {
    assert_eq!(classify("1.5"), TokenRef::Title);
}

#[test]
fn classify_leading_zeros_is_id() {
    assert_eq!(classify("007"), TokenRef::Id(7));
}
