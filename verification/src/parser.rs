//! The type-descriptor parser: recognizes the composite wrappers
//! `Nullable(...)`, `Array(...)`, `FixedString(n)` and the `Decimal` family,
//! each as a pure function of the descriptor text.

use vstd::prelude::*;
use vstd::string::StrSliceExecFns;

use crate::enums::{
    enum16_items_spec, enum8_items_spec, enum_prefix_check, enum_prefix_spec, parse_enum16,
    parse_enum8,
};
use crate::text::{
    eq_ic_seq, eq_ignore_case, find_char, lemma_find_char_props, parse_u64_bounded,
    starts_with_str, trim_spec, trim_str, uint_text, uint_text_val,
};
use crate::types::{NoBits, SqlType, TypeV};
use crate::Error;

verus! {

/// The text between `prefix` and a trailing `)`, when `s` has that shape.
pub open spec fn wrapped_inner(s: Seq<char>, prefix: Seq<char>) -> Option<Seq<char>> {
    if s.len() > prefix.len() && s.take(prefix.len() as int) == prefix && s.last() == ')' {
        Some(s.subrange(prefix.len() as int, s.len() - 1))
    } else {
        None
    }
}

/// Recognizes `prefix` + inner + `)` and hands the inner text back.
fn wrapped_inner_str<'a>(s: &'a str, prefix: &str) -> (r: Option<&'a str>)
    ensures
        match r {
            Some(t) => wrapped_inner(s@, prefix@) == Some(t@),
            None => wrapped_inner(s@, prefix@) is None,
        },
{
    let n = s.unicode_len();
    let m = prefix.unicode_len();
    if n > m && starts_with_str(s, prefix) && s.get_char(n - 1) == ')' {
        Some(s.substring_char(m, n - 1))
    } else {
        None
    }
}

/// The inner descriptor of `Nullable(...)`, unless the inner text itself
/// starts with `Nullable` (double-nullable is rejected by this textual
/// prefix test alone).
pub open spec fn nullable_inner_spec(s: Seq<char>) -> Option<Seq<char>> {
    match wrapped_inner(s, "Nullable("@) {
        Some(inner) => {
            if inner.len() >= "Nullable"@.len() && inner.take("Nullable"@.len() as int)
                == "Nullable"@ {
                None
            } else {
                Some(inner)
            }
        },
        None => None,
    }
}

/// Matches `Nullable(X)` and returns the inner descriptor `X`; rejects a
/// double-nullable by the textual prefix of the inner text.
pub fn parse_nullable_type<'a>(source: &'a str) -> (r: Option<&'a str>)
    ensures
        match r {
            Some(t) => nullable_inner_spec(source@) == Some(t@),
            None => nullable_inner_spec(source@) is None,
        },
{
    match wrapped_inner_str(source, "Nullable(") {
        Some(inner) => {
            if starts_with_str(inner, "Nullable") {
                None
            } else {
                Some(inner)
            }
        },
        None => None,
    }
}

/// The inner descriptor of `Array(...)`.
pub open spec fn array_inner_spec(s: Seq<char>) -> Option<Seq<char>> {
    wrapped_inner(s, "Array("@)
}

/// Matches `Array(X)` and returns the inner descriptor `X`.
pub fn parse_array_type<'a>(source: &'a str) -> (r: Option<&'a str>)
    ensures
        match r {
            Some(t) => array_inner_spec(source@) == Some(t@),
            None => array_inner_spec(source@) is None,
        },
{
    wrapped_inner_str(source, "Array(")
}

/// The declared width of `FixedString(n)`: the inner text must be an
/// unsigned numeral that fits the machine's size type.
pub open spec fn fixed_string_spec(s: Seq<char>) -> Option<int> {
    match wrapped_inner(s, "FixedString("@) {
        Some(inner) => {
            if uint_text(inner) && uint_text_val(inner) <= usize::MAX as int {
                Some(uint_text_val(inner))
            } else {
                None
            }
        },
        None => None,
    }
}

/// Matches `FixedString(n)` and returns the width `n`.
pub fn parse_fixed_string(source: &str) -> (r: Option<usize>)
    ensures
        match r {
            Some(v) => fixed_string_spec(source@) == Some(v as int),
            None => fixed_string_spec(source@) is None,
        },
{
    match wrapped_inner_str(source, "FixedString(") {
        Some(inner) => {
            match parse_u64_bounded(inner, usize::MAX as u64) {
                Some(v) => Some(v as usize),
                None => None,
            }
        },
        None => None,
    }
}

/// The two comma-separated decimal parameters, each whitespace-trimmed and
/// parsed as an unsigned 8-bit numeral; more than one comma fails.
pub open spec fn decimal_pair_spec(inner: Seq<char>) -> Option<(u8, u8)> {
    match find_char(inner, ',') {
        Some(k) => {
            if find_char(inner.skip(k + 1), ',') is Some {
                None
            } else {
                let c1 = trim_spec(inner.take(k));
                let c2 = trim_spec(inner.skip(k + 1));
                if uint_text(c1) && uint_text_val(c1) <= 255 && uint_text(c2) && uint_text_val(
                    c2,
                ) <= 255 {
                    Some((uint_text_val(c1) as u8, uint_text_val(c2) as u8))
                } else {
                    None
                }
            }
        },
        None => None,
    }
}

/// The `Decimal` family: `Decimal32(s)` has implied precision 9 and
/// `Decimal64(s)` precision 18, the scale in either form held to its implied
/// precision; `Decimal(p, s)` requires `s <= p` and a precision with a
/// supported backing width. So every accepted decimal satisfies the
/// canonical-type invariant `scale <= precision`.
pub open spec fn decimal_spec(s: Seq<char>) -> Option<(u8, u8, NoBits)> {
    if wrapped_inner(s, "Decimal32("@) is Some {
        match wrapped_inner(s, "Decimal32("@) {
            Some(inner) => {
                if uint_text(inner) && uint_text_val(inner) <= 9 {
                    Some((9u8, uint_text_val(inner) as u8, NoBits::N32))
                } else {
                    None
                }
            },
            None => None,
        }
    } else if wrapped_inner(s, "Decimal64("@) is Some {
        match wrapped_inner(s, "Decimal64("@) {
            Some(inner) => {
                if uint_text(inner) && uint_text_val(inner) <= 18 {
                    Some((18u8, uint_text_val(inner) as u8, NoBits::N64))
                } else {
                    None
                }
            },
            None => None,
        }
    } else {
        match wrapped_inner(s, "Decimal("@) {
            Some(inner) => {
                match decimal_pair_spec(inner) {
                    Some((p, sc)) => {
                        if sc <= p {
                            match NoBits::spec_from_precision(p) {
                                Some(bits) => Some((p, sc, bits)),
                                None => None,
                            }
                        } else {
                            None
                        }
                    },
                    None => None,
                }
            },
            None => None,
        }
    }
}

/// Finds the first `c` in `s`.
fn find_char_in(s: &str, c: char) -> (r: Option<usize>)
    ensures
        match r {
            Some(k) => find_char(s@, c) == Some(k as int),
            None => find_char(s@, c) is None,
        },
{
    proof {
        lemma_find_char_props(s@, c);
    }
    let n = s.unicode_len();
    let mut i: usize = 0;
    while i < n
        invariant
            0 <= i <= n,
            n == s@.len(),
            forall|j: int| 0 <= j < i ==> s@[j] != c,
        decreases n - i,
    {
        if s.get_char(i) == c {
            proof {
                lemma_find_char_props(s@, c);
                match find_char(s@, c) {
                    Some(k) => {
                        if k < i {
                            assert(s@[k] != c);
                        } else if k > i {
                            assert(s@[i as int] != c);
                        }
                    },
                    None => {
                        assert(s@[i as int] != c);
                    },
                }
            }
            return Some(i);
        }
        i = i + 1;
    }
    None
}

/// The classification of a full type descriptor: a case-insensitive match
/// against the primitive vocabulary, then the composite rules, first match
/// winning. A composite whose prefix matched but whose parameters are bad is
/// a malformed descriptor; text matching no rule is unsupported.
pub open spec fn spec_classify(s: Seq<char>) -> Result<TypeV, Error>
    decreases s.len(),
{
    if eq_ic_seq(s, "UInt8"@) {
        Ok(TypeV::UInt8)
    } else if eq_ic_seq(s, "UInt16"@) {
        Ok(TypeV::UInt16)
    } else if eq_ic_seq(s, "UInt32"@) {
        Ok(TypeV::UInt32)
    } else if eq_ic_seq(s, "UInt64"@) {
        Ok(TypeV::UInt64)
    } else if eq_ic_seq(s, "Int8"@) {
        Ok(TypeV::Int8)
    } else if eq_ic_seq(s, "Int16"@) {
        Ok(TypeV::Int16)
    } else if eq_ic_seq(s, "Int32"@) {
        Ok(TypeV::Int32)
    } else if eq_ic_seq(s, "Int64"@) {
        Ok(TypeV::Int64)
    } else if eq_ic_seq(s, "Float32"@) {
        Ok(TypeV::Float32)
    } else if eq_ic_seq(s, "Float64"@) {
        Ok(TypeV::Float64)
    } else if eq_ic_seq(s, "String"@) {
        Ok(TypeV::String)
    } else if eq_ic_seq(s, "Date"@) {
        Ok(TypeV::Date)
    } else if eq_ic_seq(s, "DateTime"@) {
        Ok(TypeV::DateTime)
    } else if eq_ic_seq(s, "IPv4"@) {
        Ok(TypeV::Ipv4)
    } else if eq_ic_seq(s, "IPv6"@) {
        Ok(TypeV::Ipv6)
    } else if eq_ic_seq(s, "UUID"@) {
        Ok(TypeV::Uuid)
    } else if wrapped_inner(s, "Nullable("@) is Some {
        let inner = wrapped_inner(s, "Nullable("@).unwrap();
        if inner.len() >= "Nullable"@.len() && inner.take("Nullable"@.len() as int)
            == "Nullable"@ {
            Err(Error::MalformedParameters)
        } else {
            match spec_classify(inner) {
                Ok(t) => Ok(TypeV::Nullable(Box::new(t))),
                Err(e) => Err(e),
            }
        }
    } else if wrapped_inner(s, "FixedString("@) is Some {
        match fixed_string_spec(s) {
            Some(v) => Ok(TypeV::FixedString(v as usize)),
            None => Err(Error::UnsupportedType),
        }
    } else if wrapped_inner(s, "Array("@) is Some {
        match spec_classify(wrapped_inner(s, "Array("@).unwrap()) {
            Ok(t) => Ok(TypeV::Array(Box::new(t))),
            Err(e) => Err(e),
        }
    } else if wrapped_inner(s, "Decimal32("@) is Some || wrapped_inner(s, "Decimal64("@)
        is Some || wrapped_inner(s, "Decimal("@) is Some {
        match decimal_spec(s) {
            Some((p, sc, _bits)) => Ok(TypeV::Decimal(p, sc)),
            None => Err(Error::MalformedParameters),
        }
    } else if enum_prefix_spec(s, "Enum8"@) {
        match enum8_items_spec(s) {
            Some(items) => Ok(TypeV::Enum8(items)),
            None => Err(Error::MalformedParameters),
        }
    } else if enum_prefix_spec(s, "Enum16"@) {
        match enum16_items_spec(s) {
            Some(items) => Ok(TypeV::Enum16(items)),
            None => Err(Error::MalformedParameters),
        }
    } else {
        Err(Error::UnsupportedType)
    }
}

/// Turns a type descriptor into its canonical type, or says how it failed.
pub fn classify(source: &str) -> (r: Result<SqlType, Error>)
    ensures
        match r {
            Ok(t) => spec_classify(source@) == Ok::<TypeV, Error>(t@),
            Err(e) => spec_classify(source@) == Err::<TypeV, Error>(e),
        },
    decreases source@.len(),
{
    if eq_ignore_case(source, "UInt8") {
        Ok(SqlType::UInt8)
    } else if eq_ignore_case(source, "UInt16") {
        Ok(SqlType::UInt16)
    } else if eq_ignore_case(source, "UInt32") {
        Ok(SqlType::UInt32)
    } else if eq_ignore_case(source, "UInt64") {
        Ok(SqlType::UInt64)
    } else if eq_ignore_case(source, "Int8") {
        Ok(SqlType::Int8)
    } else if eq_ignore_case(source, "Int16") {
        Ok(SqlType::Int16)
    } else if eq_ignore_case(source, "Int32") {
        Ok(SqlType::Int32)
    } else if eq_ignore_case(source, "Int64") {
        Ok(SqlType::Int64)
    } else if eq_ignore_case(source, "Float32") {
        Ok(SqlType::Float32)
    } else if eq_ignore_case(source, "Float64") {
        Ok(SqlType::Float64)
    } else if eq_ignore_case(source, "String") {
        Ok(SqlType::String)
    } else if eq_ignore_case(source, "Date") {
        Ok(SqlType::Date)
    } else if eq_ignore_case(source, "DateTime") {
        Ok(SqlType::DateTime)
    } else if eq_ignore_case(source, "IPv4") {
        Ok(SqlType::Ipv4)
    } else if eq_ignore_case(source, "IPv6") {
        Ok(SqlType::Ipv6)
    } else if eq_ignore_case(source, "UUID") {
        Ok(SqlType::Uuid)
    } else if let Some(inner) = wrapped_inner_str(source, "Nullable(") {
        if starts_with_str(inner, "Nullable") {
            Err(Error::MalformedParameters)
        } else {
            match classify(inner) {
                Ok(t) => Ok(SqlType::Nullable(Box::new(t))),
                Err(e) => Err(e),
            }
        }
    } else if wrapped_inner_str(source, "FixedString(").is_some() {
        match parse_fixed_string(source) {
            Some(v) => Ok(SqlType::FixedString(v)),
            None => Err(Error::UnsupportedType),
        }
    } else if let Some(inner) = wrapped_inner_str(source, "Array(") {
        match classify(inner) {
            Ok(t) => Ok(SqlType::Array(Box::new(t))),
            Err(e) => Err(e),
        }
    } else if wrapped_inner_str(source, "Decimal32(").is_some() || wrapped_inner_str(
        source,
        "Decimal64(",
    ).is_some() || wrapped_inner_str(source, "Decimal(").is_some() {
        match parse_decimal(source) {
            Some((p, sc, _bits)) => Ok(SqlType::Decimal(p, sc)),
            None => Err(Error::MalformedParameters),
        }
    } else if enum_prefix_check(source, "Enum8") {
        match parse_enum8(source) {
            Some(items) => Ok(SqlType::Enum8(items)),
            None => Err(Error::MalformedParameters),
        }
    } else if enum_prefix_check(source, "Enum16") {
        match parse_enum16(source) {
            Some(items) => Ok(SqlType::Enum16(items)),
            None => Err(Error::MalformedParameters),
        }
    } else {
        Err(Error::UnsupportedType)
    }
}

/// Matches the three decimal surface forms and returns precision, scale and
/// the backing width.
pub fn parse_decimal(source: &str) -> (r: Option<(u8, u8, NoBits)>)
    ensures
        r == decimal_spec(source@),
{
    if let Some(inner) = wrapped_inner_str(source, "Decimal32(") {
        return match parse_u64_bounded(inner, 9) {
            Some(v) => Some((9, v as u8, NoBits::N32)),
            None => None,
        };
    }
    if let Some(inner) = wrapped_inner_str(source, "Decimal64(") {
        return match parse_u64_bounded(inner, 18) {
            Some(v) => Some((18, v as u8, NoBits::N64)),
            None => None,
        };
    }
    match wrapped_inner_str(source, "Decimal(") {
        Some(inner) => {
            let ilen = inner.unicode_len();
            match find_char_in(inner, ',') {
                Some(k) => {
                    proof {
                        lemma_find_char_props(inner@, ',');
                    }
                    let rest = inner.substring_char(k + 1, ilen);
                    if find_char_in(rest, ',').is_some() {
                        return None;
                    }
                    let c1 = trim_str(inner.substring_char(0, k));
                    let c2 = trim_str(rest);
                    proof {
                        lemma_find_char_props(inner@, ',');
                        assert(inner@.subrange(0, k as int) =~= inner@.take(k as int));
                    }
                    let p = parse_u64_bounded(c1, 255);
                    let sc = parse_u64_bounded(c2, 255);
                    match (p, sc) {
                        (Some(p), Some(sc)) => {
                            if sc <= p {
                                match NoBits::from_precision(p as u8) {
                                    Some(bits) => Some((p as u8, sc as u8, bits)),
                                    None => None,
                                }
                            } else {
                                None
                            }
                        },
                        _ => None,
                    }
                },
                None => None,
            }
        },
        None => None,
    }
}

} // verus!
