use cute_lib::types::{extract_operation, parse_decimal, Number, Operation};

#[test]
fn types_parse_whitespace() {
    assert_eq!(Number::new("   5"), ("", Number(5)));
}

#[test]
fn types_parse_number() {
    assert_eq!(Number::new("5"), ("", Number(5)));
}

#[test]
fn types_parse_add() {
    assert_eq!(Operation::new("+"), ("", Operation::Addition));
}

#[test]
fn types_parse_sub() {
    assert_eq!(Operation::new("-"), ("", Operation::Subtraction));
}

#[test]
fn types_parse_mul() {
    assert_eq!(Operation::new("*"), ("", Operation::Multiplication));
}

#[test]
fn types_parse_div() {
    assert_eq!(Operation::new("/"), ("", Operation::Division));
}

#[test]
fn lib_parse_whitespace() {
    assert_eq!(Number::new("   5"), ("", Number(5)));
}

#[test]
fn lib_parse_number() {
    assert_eq!(Number::new("5"), ("", Number(5)));
}

#[test]
fn lib_parse_add() {
    assert_eq!(Operation::new("+"), ("", Operation::Addition));
}

#[test]
fn lib_parse_sub() {
    assert_eq!(Operation::new("-"), ("", Operation::Subtraction));
}

#[test]
fn lib_parse_mul() {
    assert_eq!(Operation::new("*"), ("", Operation::Multiplication));
}

#[test]
fn lib_parse_div() {
    assert_eq!(Operation::new("/"), ("", Operation::Division));
}

#[test]
fn number_new_leaves_what_follows() {
    assert_eq!(Number::new(" 42 + 1"), (" + 1", Number(42)));
    assert_eq!(Number::new("007x"), ("x", Number(7)));
}

#[test]
fn operation_new_skips_white_space_and_takes_one_sign() {
    assert_eq!(Operation::new("  * 3"), (" 3", Operation::Multiplication));
    assert_eq!(extract_operation("--"), ("-", Operation::Subtraction));
}

#[test]
fn parse_decimal_reads_digits() {
    assert_eq!(parse_decimal("0"), Some(0));
    assert_eq!(parse_decimal("3209"), Some(3209));
    assert_eq!(parse_decimal("0012"), Some(12));
}

#[test]
fn parse_decimal_goes_up_to_the_largest_i64() {
    assert_eq!(parse_decimal("9223372036854775807"), Some(i64::MAX));
    assert_eq!(parse_decimal("9223372036854775808"), None);
    assert_eq!(parse_decimal("92233720368547758070"), None);
    assert_eq!(parse_decimal("99999999999999999999999999"), None);
}

#[test]
fn parse_decimal_refuses_what_is_not_all_digits() {
    assert_eq!(parse_decimal(""), None);
    assert_eq!(parse_decimal("+5"), None);
    assert_eq!(parse_decimal("-5"), None);
    assert_eq!(parse_decimal("5a"), None);
    assert_eq!(parse_decimal("1.5"), None);
    assert_eq!(parse_decimal("٣"), None);
}
