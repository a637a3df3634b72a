use colcodec::column::ColumnData;
use colcodec::parser::{classify, parse_decimal};
use colcodec::enums::parse_enum8;
use colcodec::reader::ByteReader;
use colcodec::types::{NoBits, SqlType, Timezone};
use colcodec::Error;

fn utc() -> Timezone {
    Timezone::new("UTC".to_owned())
}

fn round_trip(column: ColumnData, descriptor: &str, rows: usize) {
    let mut bytes: Vec<u8> = Vec::new();
    column.encode(&mut bytes);
    let total = bytes.len();
    bytes.push(0xAB);
    let mut reader = ByteReader::new(bytes);
    let got = ColumnData::load_data(&mut reader, descriptor, rows, &utc()).unwrap();
    assert_eq!(got, column);
    assert_eq!(reader.pos, total);
}

#[test]
fn round_trip_uint16() {
    round_trip(ColumnData::UInt16(vec![1, 513, 65535]), "UInt16", 3);
}

#[test]
fn round_trip_int64() {
    round_trip(ColumnData::Int64(vec![0, u64::MAX, 42]), "Int64", 3);
}

#[test]
fn round_trip_strings() {
    let long_row = vec![7u8; 200];
    let column = ColumnData::String(vec![b"ab".to_vec(), Vec::new(), long_row]);
    round_trip(column, "String", 3);
}

#[test]
fn round_trip_fixed_string() {
    let column = ColumnData::FixedString(3, vec![b"abc".to_vec(), b"xyz".to_vec()]);
    round_trip(column, "FixedString(3)", 2);
}

#[test]
fn round_trip_date_keeps_timezone() {
    let column = ColumnData::Date(utc(), vec![18000, 18001]);
    round_trip(column, "Date", 2);
}

#[test]
fn round_trip_decimal() {
    let column = ColumnData::Decimal(9, 4, NoBits::N32, Box::new(ColumnData::Int32(vec![12345])));
    round_trip(column, "Decimal(9, 4)", 1);
}

#[test]
fn round_trip_enum8_codes() {
    let column = ColumnData::Enum8(
        vec![("a".to_owned(), 1), ("b".to_owned(), 2)],
        Box::new(ColumnData::Int8(vec![1, 2, 1])),
    );
    round_trip(column, "Enum8('a' = 1, 'b' = 2)", 3);
}

#[test]
fn round_trip_array_of_nullable() {
    let inner = ColumnData::Nullable(
        Box::new(ColumnData::UInt8(vec![10, 20, 30])),
        vec![0, 1, 0],
    );
    let column = ColumnData::Array(Box::new(inner), vec![1, 3]);
    round_trip(column, "Array(Nullable(UInt8))", 2);
}

#[test]
fn load_uint8_reads_raw_bytes() {
    let mut reader = ByteReader::new(vec![5, 6, 7]);
    let got = ColumnData::load_data(&mut reader, "UInt8", 3, &utc()).unwrap();
    assert_eq!(got, ColumnData::UInt8(vec![5, 6, 7]));
}

#[test]
fn load_uint32_little_endian() {
    let mut reader = ByteReader::new(vec![1, 0, 0, 0, 0xFF, 0xFF, 0xFF, 0xFF]);
    let got = ColumnData::load_data(&mut reader, "UInt32", 2, &utc()).unwrap();
    assert_eq!(got, ColumnData::UInt32(vec![1, u32::MAX]));
}

#[test]
fn load_unsupported_descriptor() {
    let mut reader = ByteReader::new(Vec::new());
    let got = ColumnData::load_data(&mut reader, "Foo", 0, &utc());
    assert_eq!(got, Err(Error::UnsupportedType));
}

#[test]
fn load_malformed_decimal() {
    let mut reader = ByteReader::new(Vec::new());
    let got = ColumnData::load_data(&mut reader, "Decimal(3, 4)", 0, &utc());
    assert_eq!(got, Err(Error::MalformedParameters));
}

#[test]
fn load_malformed_enum() {
    let mut reader = ByteReader::new(Vec::new());
    let got = ColumnData::load_data(&mut reader, "Enum8 ('a' = 1,)", 0, &utc());
    assert_eq!(got, Err(Error::MalformedParameters));
}

#[test]
fn load_short_stream_fails() {
    let mut reader = ByteReader::new(vec![1, 2, 3]);
    let got = ColumnData::load_data(&mut reader, "UInt32", 1, &utc());
    assert_eq!(got, Err(Error::ReadFailure));
}

#[test]
fn load_array_rejects_decreasing_offsets() {
    let mut bytes = vec![2, 0, 0, 0, 0, 0, 0, 0, 1, 0, 0, 0, 0, 0, 0, 0];
    bytes.extend_from_slice(&[9, 9]);
    let mut reader = ByteReader::new(bytes);
    let got = ColumnData::load_data(&mut reader, "Array(UInt8)", 2, &utc());
    assert_eq!(got, Err(Error::ReadFailure));
}

#[test]
fn loaded_array_offsets_are_sound() {
    let mut bytes = vec![1, 0, 0, 0, 0, 0, 0, 0, 3, 0, 0, 0, 0, 0, 0, 0];
    bytes.extend_from_slice(&[10, 20, 30]);
    let mut reader = ByteReader::new(bytes);
    let got = ColumnData::load_data(&mut reader, "Array(UInt8)", 2, &utc()).unwrap();
    match &got {
        ColumnData::Array(inner, offsets) => {
            assert_eq!(offsets, &vec![1u64, 3u64]);
            assert!(offsets.windows(2).all(|w| w[0] <= w[1]));
            assert_eq!(*offsets.last().unwrap() as usize, inner.len());
        }
        other => panic!("expected an array column, got {:?}", other),
    }
    assert_eq!(got.len(), 2);
}

#[test]
fn from_type_builds_empty_columns() {
    let t = SqlType::Array(Box::new(SqlType::Nullable(Box::new(SqlType::String))));
    let c = ColumnData::from_type(&t, &utc(), 16).unwrap();
    assert_eq!(c.len(), 0);
    let mut bytes: Vec<u8> = Vec::new();
    c.encode(&mut bytes);
    assert!(bytes.is_empty());
}

#[test]
fn from_type_decimal_backing() {
    let c = ColumnData::from_type(&SqlType::Decimal(18, 6), &utc(), 4).unwrap();
    match c {
        ColumnData::Decimal(18, 6, NoBits::N64, inner) => {
            assert_eq!(*inner, ColumnData::Int64(Vec::new()));
        }
        other => panic!("unexpected column {:?}", other),
    }
}

#[test]
fn classify_recursive_nesting() {
    let t = classify("Array(Array(Nullable(Int32)))").unwrap();
    let expected = SqlType::Array(Box::new(SqlType::Array(Box::new(SqlType::Nullable(
        Box::new(SqlType::Int32),
    )))));
    assert_eq!(t, expected);
}

#[test]
fn classify_is_case_insensitive_on_primitives() {
    assert_eq!(classify("uint8"), Ok(SqlType::UInt8));
    assert_eq!(classify("DATETIME"), Ok(SqlType::DateTime));
    assert_eq!(classify("uuid"), Ok(SqlType::Uuid));
}

#[test]
fn classify_rejects_double_nullable() {
    assert_eq!(
        classify("Nullable(Nullable(Int8))"),
        Err(Error::MalformedParameters)
    );
}

#[test]
fn parse_decimal32_implied_precision() {
    assert_eq!(parse_decimal("Decimal32(4)"), Some((9, 4, NoBits::N32)));
}

#[test]
fn parse_enum8_narrows_wide_codes() {
    let res = parse_enum8("Enum8('a' = 300)").unwrap();
    assert_eq!(res, vec![("a".to_owned(), 44)]);
}

#[test]
fn parse_enum8_escaped_quote_in_name() {
    let res = parse_enum8("Enum8('a\\'b' = 1)").unwrap();
    assert_eq!(res, vec![("a'b".to_owned(), 1)]);
}

#[test]
fn round_trip_uuid() {
    let row: Vec<u8> = (0u8..16).collect();
    round_trip(ColumnData::Uuid(vec![row]), "UUID", 1);
}

#[test]
fn round_trip_float64_bits() {
    let bits = 1.5f64.to_le_bytes();
    let mut reader = ByteReader::new(bits.to_vec());
    let got = ColumnData::load_data(&mut reader, "Float64", 1, &utc()).unwrap();
    let value = u64::from_le_bytes(bits);
    assert_eq!(got, ColumnData::Float64(vec![value]));
    round_trip(got, "Float64", 1);
}

#[test]
fn round_trip_enum16() {
    let column = ColumnData::Enum16(
        vec![("a".to_owned(), -128), ("b".to_owned(), 0)],
        Box::new(ColumnData::Int16(vec![65408, 0])),
    );
    round_trip(column, "Enum16('a' = -128, 'b' = 0)", 2);
}

#[test]
fn round_trip_nullable_string() {
    let inner = ColumnData::String(vec![b"x".to_vec(), b"yy".to_vec()]);
    let column = ColumnData::Nullable(Box::new(inner), vec![0, 1]);
    round_trip(column, "Nullable(String)", 2);
}

#[test]
fn round_trip_datetime() {
    let column = ColumnData::DateTime(utc(), vec![1_600_000_000]);
    round_trip(column, "DateTime", 1);
}

#[test]
fn encode_uint16_is_little_endian() {
    let mut bytes: Vec<u8> = Vec::new();
    ColumnData::UInt16(vec![513]).encode(&mut bytes);
    assert_eq!(bytes, vec![1, 2]);
}

#[test]
fn encode_string_length_prefix_is_varuint() {
    let mut bytes: Vec<u8> = Vec::new();
    ColumnData::String(vec![vec![7u8; 200]]).encode(&mut bytes);
    assert_eq!(bytes.len(), 202);
    assert_eq!(&bytes[0..2], &[200, 1]);
    assert!(bytes[2..].iter().all(|b| *b == 7));
}

#[test]
fn encode_nullable_flags_come_first() {
    let column = ColumnData::Nullable(Box::new(ColumnData::UInt8(vec![9, 9])), vec![1, 0]);
    let mut bytes: Vec<u8> = Vec::new();
    column.encode(&mut bytes);
    assert_eq!(bytes, vec![1, 0, 9, 9]);
}

#[test]
fn encode_array_offsets_come_first() {
    let column = ColumnData::Array(Box::new(ColumnData::UInt8(vec![5])), vec![1]);
    let mut bytes: Vec<u8> = Vec::new();
    column.encode(&mut bytes);
    assert_eq!(bytes, vec![1, 0, 0, 0, 0, 0, 0, 0, 5]);
}

#[test]
fn load_int16_keeps_bit_patterns() {
    let mut reader = ByteReader::new(vec![0xFF, 0xFF]);
    let got = ColumnData::load_data(&mut reader, "Int16", 1, &utc()).unwrap();
    assert_eq!(got, ColumnData::Int16(vec![0xFFFF]));
}

#[test]
fn load_fixed_string_wrong_tail_fails() {
    let mut reader = ByteReader::new(vec![1, 2, 3, 4, 5]);
    let got = ColumnData::load_data(&mut reader, "FixedString(3)", 2, &utc());
    assert_eq!(got, Err(Error::ReadFailure));
}

#[test]
fn parse_enum16_full_signed_range() {
    let res = colcodec::enums::parse_enum16("Enum16('lo' = -32768, 'hi' = 32767)").unwrap();
    assert_eq!(
        res,
        vec![("lo".to_owned(), -32768), ("hi".to_owned(), 32767)]
    );
}

#[test]
fn parse_enum16_out_of_range_value() {
    assert!(colcodec::enums::parse_enum16("Enum16('a' = 40000)").is_none());
    assert!(colcodec::enums::parse_enum16("Enum16('a' = -32769)").is_none());
}

#[test]
fn parse_decimal32_scale_bounded_by_implied_precision() {
    assert_eq!(parse_decimal("Decimal32(9)"), Some((9, 9, NoBits::N32)));
    assert_eq!(parse_decimal("Decimal32(10)"), None);
    assert_eq!(parse_decimal("Decimal32(200)"), None);
}

#[test]
fn parse_decimal64_scale_bounded_by_implied_precision() {
    assert_eq!(parse_decimal("Decimal64(18)"), Some((18, 18, NoBits::N64)));
    assert_eq!(parse_decimal("Decimal64(19)"), None);
}

#[test]
fn classify_rejects_oversized_decimal32_scale() {
    assert_eq!(classify("Decimal32(200)"), Err(Error::MalformedParameters));
}
