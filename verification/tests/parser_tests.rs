use colcodec::enums::{parse_enum16, parse_enum8};
use colcodec::parser::{parse_array_type, parse_decimal, parse_fixed_string, parse_nullable_type};
use colcodec::types::NoBits;

#[test]
fn test_parse_decimal() {
    assert_eq!(parse_decimal("Decimal(9, 4)"), Some((9, 4, NoBits::N32)));
    assert_eq!(parse_decimal("Decimal(10, 4)"), Some((10, 4, NoBits::N64)));
    assert_eq!(parse_decimal("Decimal(20, 4)"), None);
    assert_eq!(parse_decimal("Decimal(2000, 4)"), None);
    assert_eq!(parse_decimal("Decimal(3, 4)"), None);
    assert_eq!(parse_decimal("Decimal(20, -4)"), None);
    assert_eq!(parse_decimal("Decimal(0)"), None);
    assert_eq!(parse_decimal("Decimal(1, 2, 3)"), None);
    assert_eq!(parse_decimal("Decimal64(9)"), Some((18, 9, NoBits::N64)));
}

#[test]
fn test_parse_array_type() {
    assert_eq!(parse_array_type("Array(UInt8)"), Some("UInt8"));
}

#[test]
fn test_parse_nullable_type() {
    assert_eq!(parse_nullable_type("Nullable(Int8)"), Some("Int8"));
    assert_eq!(parse_nullable_type("Int8"), None);
    assert_eq!(parse_nullable_type("Nullable(Nullable(Int8))"), None);
}

#[test]
fn test_parse_fixed_string() {
    assert_eq!(parse_fixed_string("FixedString(8)"), Some(8_usize));
    assert_eq!(parse_fixed_string("FixedString(zz)"), None);
    assert_eq!(parse_fixed_string("Int8"), None);
}

#[test]
fn test_parse_enum8() {
    let enum8 = "Enum8 ('a' = 1, 'b' = 2)";

    let res = parse_enum8(enum8).unwrap();
    assert_eq!(res, vec![("a".to_owned(), 1), ("b".to_owned(), 2)])
}

#[test]
fn test_parse_enum16_special_chars() {
    let enum16 = "Enum16('a_' = -128, 'b&' = 0)";

    let res = parse_enum16(enum16).unwrap();
    assert_eq!(res, vec![("a_".to_owned(), -128), ("b&".to_owned(), 0)])
}

#[test]
fn test_parse_enum8_single() {
    let enum8 = "Enum8 ('a' = 1)";

    let res = parse_enum8(enum8).unwrap();
    assert_eq!(res, vec![("a".to_owned(), 1)])
}

#[test]
fn test_parse_enum8_empty_id() {
    let enum8 = "Enum8 ('' = 1, '' = 2)";

    let res = parse_enum8(enum8).unwrap();
    assert_eq!(res, vec![("".to_owned(), 1), ("".to_owned(), 2)])
}

#[test]
fn test_parse_enum8_single_empty_id() {
    let enum8 = "Enum8 ('' = 1)";

    let res = parse_enum8(enum8).unwrap();
    assert_eq!(res, vec![("".to_owned(), 1)])
}

#[test]
fn test_parse_enum8_extra_comma() {
    let enum8 = "Enum8 ('a' = 1, 'b' = 2,)";

    assert!(parse_enum8(enum8).is_none());
}

#[test]
fn test_parse_enum8_empty() {
    let enum8 = "Enum8 ()";

    assert!(parse_enum8(enum8).is_none());
}

#[test]
fn test_parse_enum8_no_value() {
    let enum8 = "Enum8 ('a' =)";

    assert!(parse_enum8(enum8).is_none());
}

#[test]
fn test_parse_enum8_no_ident() {
    let enum8 = "Enum8 ( = 1)";

    assert!(parse_enum8(enum8).is_none());
}

#[test]
fn test_parse_enum8_starting_comma() {
    let enum8 = "Enum8 ( , 'a' = 1)";

    assert!(parse_enum8(enum8).is_none());
}

#[test]
fn test_parse_enum16() {
    let enum16 = "Enum16 ('a' = 1, 'b' = 2)";

    let res = parse_enum16(enum16).unwrap();
    assert_eq!(res, vec![("a".to_owned(), 1), ("b".to_owned(), 2)])
}

#[test]
fn test_parse_enum16_single() {
    let enum16 = "Enum16 ('a' = 1)";

    let res = parse_enum16(enum16).unwrap();
    assert_eq!(res, vec![("a".to_owned(), 1)])
}

#[test]
fn test_parse_enum16_empty_id() {
    let enum16 = "Enum16 ('' = 1, '' = 2)";

    let res = parse_enum16(enum16).unwrap();
    assert_eq!(res, vec![("".to_owned(), 1), ("".to_owned(), 2)])
}

#[test]
fn test_parse_enum16_single_empty_id() {
    let enum16 = "Enum16 ('' = 1)";

    let res = parse_enum16(enum16).unwrap();
    assert_eq!(res, vec![("".to_owned(), 1)])
}

#[test]
fn test_parse_enum16_extra_comma() {
    let enum16 = "Enum16 ('a' = 1, 'b' = 2,)";

    assert!(parse_enum16(enum16).is_none());
}

#[test]
fn test_parse_enum16_empty() {
    let enum16 = "Enum16 ()";

    assert!(parse_enum16(enum16).is_none());
}

#[test]
fn test_parse_enum16_no_value() {
    let enum16 = "Enum16 ('a' =)";

    assert!(parse_enum16(enum16).is_none());
}

#[test]
fn test_parse_enum16_no_ident() {
    let enum16 = "Enum16 ( = 1)";

    assert!(parse_enum16(enum16).is_none());
}

#[test]
fn test_parse_enum16_starting_comma() {
    let enum16 = "Enum16 ( , 'a' = 1)";

    assert!(parse_enum16(enum16).is_none());
}
