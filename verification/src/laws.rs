//! The laws that tie the codec together: a classified type is always fit
//! for column construction; decoding what a column encoded gives the column
//! back; and a decoded array column's offsets are sound.

use vstd::prelude::*;
use vstd::bytes::{
    lemma_auto_spec_u16_to_from_le_bytes, lemma_auto_spec_u32_to_from_le_bytes,
    lemma_auto_spec_u64_to_from_le_bytes, spec_u16_to_le_bytes, spec_u32_to_le_bytes,
    spec_u64_to_le_bytes,
};

use crate::codec::{
    col_dec, dec_fixed_rows, dec_strs, dec_u16s, dec_u32s, dec_u64s, lemma_col_dec_props,
};
use crate::column::{col_len, col_tz_is, col_type, col_wf, offsets_mono, offsets_total, ColV};
use crate::encode::{cat_rows, col_enc, enc_strs, enc_u16s, enc_u32s, enc_u64s};
use crate::enums::{
    digits_end, enum16_items_spec, enum_body_spec, lemma_digits_end_at, pair_at, pairs_at,
    scan_int_at, scan_name_at, skip_ws_at,
};
use crate::parser::{decimal_pair_spec, decimal_spec, spec_classify, wrapped_inner};
use crate::reader::{lemma_vu_parse_enc, vu_enc, vu_parse};
use crate::text::{
    all_digits, dec_val, eq_ic_seq, find_char, is_digit_char, is_ws_char, lemma_find_char_props,
    lemma_uint_text_val_nonneg, lower_code, trim_spec, trim_end_spec, trim_start_spec, uint_text,
    uint_text_val,
};
use crate::types::{type_wf, NoBits, TypeV};
use crate::Error;

verus! {

/// Any type the classifier accepts satisfies the canonical-type invariant,
/// so it can be handed to column construction.
pub proof fn lemma_classify_wf(s: Seq<char>)
    ensures
        match spec_classify(s) {
            Ok(t) => type_wf(t),
            Err(_) => true,
        },
    decreases s.len(),
{
    lemma_decimal_width(s);
    if wrapped_inner(s, "Nullable("@) is Some {
        lemma_classify_wf(wrapped_inner(s, "Nullable("@).unwrap());
    }
    if wrapped_inner(s, "Array("@) is Some {
        lemma_classify_wf(wrapped_inner(s, "Array("@).unwrap());
    }
}

/// A descriptor whose first character folds to `a` or `n` matches no entry
/// of the case-insensitive primitive vocabulary.
proof fn lemma_not_primitive(s: Seq<char>)
    requires
        s.len() > 0,
        lower_code(s[0]) == 97 || lower_code(s[0]) == 110,
    ensures
        !eq_ic_seq(s, "UInt8"@),
        !eq_ic_seq(s, "UInt16"@),
        !eq_ic_seq(s, "UInt32"@),
        !eq_ic_seq(s, "UInt64"@),
        !eq_ic_seq(s, "Int8"@),
        !eq_ic_seq(s, "Int16"@),
        !eq_ic_seq(s, "Int32"@),
        !eq_ic_seq(s, "Int64"@),
        !eq_ic_seq(s, "Float32"@),
        !eq_ic_seq(s, "Float64"@),
        !eq_ic_seq(s, "String"@),
        !eq_ic_seq(s, "Date"@),
        !eq_ic_seq(s, "DateTime"@),
        !eq_ic_seq(s, "IPv4"@),
        !eq_ic_seq(s, "IPv6"@),
        !eq_ic_seq(s, "UUID"@),
{
    reveal_strlit("UInt8");
    reveal_strlit("UInt16");
    reveal_strlit("UInt32");
    reveal_strlit("UInt64");
    reveal_strlit("Int8");
    reveal_strlit("Int16");
    reveal_strlit("Int32");
    reveal_strlit("Int64");
    reveal_strlit("Float32");
    reveal_strlit("Float64");
    reveal_strlit("String");
    reveal_strlit("Date");
    reveal_strlit("DateTime");
    reveal_strlit("IPv4");
    reveal_strlit("IPv6");
    reveal_strlit("UUID");
    assert(lower_code(s[0]) != 117 && lower_code(s[0]) != 105 && lower_code(s[0]) != 102
        && lower_code(s[0]) != 115 && lower_code(s[0]) != 100);
}

/// Classification acts recursively on the array wrapper: `Array(X)`
/// classifies to exactly the array of `X`'s classification.
pub proof fn lemma_classify_array(s: Seq<char>)
    requires
        wrapped_inner(s, "Array("@) is Some,
    ensures
        spec_classify(s) == match spec_classify(wrapped_inner(s, "Array("@).unwrap()) {
            Ok(t) => Ok::<TypeV, Error>(TypeV::Array(Box::new(t))),
            Err(e) => Err::<TypeV, Error>(e),
        },
{
    reveal_strlit("Array(");
    reveal_strlit("Nullable(");
    reveal_strlit("FixedString(");
    assert(s.take("Array("@.len() as int)[0] == s[0]);
    assert(s[0] == 'A');
    lemma_not_primitive(s);
    assert(wrapped_inner(s, "Nullable("@) is None) by {
        if s.len() > 9 && s.take(9) == "Nullable("@ {
            assert(s.take(9)[0] == s[0]);
        }
    }
    assert(wrapped_inner(s, "FixedString("@) is None) by {
        if s.len() > 12 && s.take(12) == "FixedString("@ {
            assert(s.take(12)[0] == s[0]);
        }
    }
}

/// Classification acts recursively on the nullable wrapper: `Nullable(X)`
/// classifies to the nullable of `X`'s classification, unless `X` itself
/// begins with `Nullable`, which is malformed.
pub proof fn lemma_classify_nullable(s: Seq<char>)
    requires
        wrapped_inner(s, "Nullable("@) is Some,
    ensures
        spec_classify(s) == ({
            let inner = wrapped_inner(s, "Nullable("@).unwrap();
            if inner.len() >= "Nullable"@.len() && inner.take("Nullable"@.len() as int)
                == "Nullable"@ {
                Err::<TypeV, Error>(Error::MalformedParameters)
            } else {
                match spec_classify(inner) {
                    Ok(t) => Ok::<TypeV, Error>(TypeV::Nullable(Box::new(t))),
                    Err(e) => Err::<TypeV, Error>(e),
                }
            }
        }),
{
    reveal_strlit("Nullable(");
    assert(s.take("Nullable("@.len() as int)[0] == s[0]);
    assert(s[0] == 'N');
    lemma_not_primitive(s);
}

/// The decimal width law: every accepted decimal descriptor carries a
/// precision between 1 and 18, a scale no larger than the precision, and a
/// 32-bit backing exactly when the precision is at most 9.
pub proof fn lemma_decimal_width(s: Seq<char>)
    ensures
        match decimal_spec(s) {
            Some((p, sc, bits)) => 1 <= p <= 18 && sc <= p && ((bits == NoBits::N32) <==> p
                <= 9),
            None => true,
        },
{
    if wrapped_inner(s, "Decimal32("@) is Some {
        let inner = wrapped_inner(s, "Decimal32("@).unwrap();
        if uint_text(inner) {
            lemma_uint_text_val_nonneg(inner);
        }
    } else if wrapped_inner(s, "Decimal64("@) is Some {
        let inner = wrapped_inner(s, "Decimal64("@).unwrap();
        if uint_text(inner) {
            lemma_uint_text_val_nonneg(inner);
        }
    }
}

/// The character of a single decimal digit.
pub open spec fn digit_char(d: int) -> char {
    if d == 0 {
        '0'
    } else if d == 1 {
        '1'
    } else if d == 2 {
        '2'
    } else if d == 3 {
        '3'
    } else if d == 4 {
        '4'
    } else if d == 5 {
        '5'
    } else if d == 6 {
        '6'
    } else if d == 7 {
        '7'
    } else if d == 8 {
        '8'
    } else {
        '9'
    }
}

/// The numeral of a non-negative value, most significant digit first.
pub open spec fn uint_chars(n: int) -> Seq<char>
    decreases n,
{
    if n < 10 {
        seq![digit_char(n)]
    } else {
        uint_chars(n / 10) + seq![digit_char(n % 10)]
    }
}

/// A signed integer literal as the enum grammar writes it.
pub open spec fn int_chars(v: int) -> Seq<char> {
    if v < 0 {
        seq!['-'] + uint_chars(-v)
    } else {
        uint_chars(v)
    }
}

proof fn lemma_digit_char(d: int)
    requires
        0 <= d <= 9,
    ensures
        is_digit_char(digit_char(d)),
        digit_char(d) as int == 48 + d,
{
}

proof fn lemma_uint_chars(n: int)
    requires
        0 <= n,
    ensures
        uint_chars(n).len() >= 1,
        all_digits(uint_chars(n)),
        dec_val(uint_chars(n)) == n,
    decreases n,
{
    let s = uint_chars(n);
    if n < 10 {
        lemma_digit_char(n);
        assert(s.drop_last() =~= Seq::<char>::empty());
        assert(dec_val(Seq::<char>::empty()) == 0);
        assert(s.last() == digit_char(n));
    } else {
        lemma_uint_chars(n / 10);
        lemma_digit_char(n % 10);
        let a = uint_chars(n / 10);
        assert(s.drop_last() =~= a);
        assert(s.last() == digit_char(n % 10));
        assert forall|j: int| 0 <= j < s.len() implies is_digit_char(#[trigger] s[j]) by {
            if j < a.len() {
                assert(s[j] == a[j]);
            }
        }
        assert(dec_val(s) == dec_val(a) * 10 + n % 10);
        assert((n / 10) * 10 + n % 10 == n) by (nonlinear_arith);
    }
}

/// Trimming text that holds no whitespace changes nothing.
proof fn lemma_trim_digits(s: Seq<char>)
    requires
        all_digits(s),
    ensures
        trim_spec(s) == s,
{
    if s.len() > 0 {
        assert(!is_ws_char(s[0]));
        assert(!is_ws_char(s.last()));
    }
    assert(trim_start_spec(s) == s);
    assert(trim_end_spec(s) == s);
}

/// The decimal acceptance law: every precision and scale with
/// `1 <= scale <= precision <= 18`, written as the two-parameter descriptor,
/// parses to exactly that precision and scale, with the backing width
/// implied by the precision.
pub proof fn lemma_decimal_accepts(p: u8, sc: u8)
    requires
        1 <= sc <= p <= 18,
    ensures
        decimal_spec("Decimal("@ + uint_chars(p as int) + ", "@ + uint_chars(sc as int) + ")"@)
            == Some((p, sc, NoBits::spec_from_precision(p).unwrap())),
{
    reveal_strlit("Decimal(");
    reveal_strlit("Decimal32(");
    reveal_strlit("Decimal64(");
    reveal_strlit(", ");
    reveal_strlit(")");
    let np = uint_chars(p as int);
    let ns = uint_chars(sc as int);
    lemma_uint_chars(p as int);
    lemma_uint_chars(sc as int);
    assert('+' as int == 43);
    assert(is_digit_char(np[0]) && is_digit_char(ns[0]));
    assert(uint_text(np) && uint_text_val(np) == p as int);
    assert(uint_text(ns) && uint_text_val(ns) == sc as int);
    let text = "Decimal("@ + np + ", "@ + ns + ")"@;
    assert(text.len() == 11 + np.len() + ns.len());
    assert(text[7] == '(');
    assert("Decimal32("@[7] == '3');
    assert("Decimal64("@[7] == '6');
    assert(wrapped_inner(text, "Decimal32("@) is None) by {
        if text.len() > 10 && text.take(10) == "Decimal32("@ {
            assert(text.take(10)[7] == text[7]);
        }
    }
    assert(wrapped_inner(text, "Decimal64("@) is None) by {
        if text.len() > 10 && text.take(10) == "Decimal64("@ {
            assert(text.take(10)[7] == text[7]);
        }
    }
    assert(text.take(8) =~= "Decimal("@);
    assert(text.last() == ')');
    let inner = text.subrange(8, text.len() - 1);
    assert(wrapped_inner(text, "Decimal("@) == Some(inner));
    assert(inner =~= np + ", "@ + ns);
    let k = np.len() as int;
    assert(inner[k] == ',');
    assert(forall|j: int| 0 <= j < k ==> is_digit_char(#[trigger] inner[j]));
    lemma_find_char_props(inner, ',');
    assert(find_char(inner, ',') == Some(k)) by {
        match find_char(inner, ',') {
            Some(k2) => {
                if k2 < k {
                    assert(is_digit_char(inner[k2]));
                } else if k2 > k {
                    assert(inner[k] != ',');
                }
            },
            None => {
                assert(inner[k] != ',');
            },
        }
    }
    let tail = inner.skip(k + 1);
    assert(tail =~= seq![' '] + ns);
    lemma_find_char_props(tail, ',');
    assert(find_char(tail, ',') is None) by {
        match find_char(tail, ',') {
            Some(k2) => {
                if k2 == 0 {
                    assert(tail[0] == ' ');
                } else {
                    assert(is_digit_char(ns[k2 - 1]));
                    assert(tail[k2] == ns[k2 - 1]);
                }
            },
            None => {},
        }
    }
    assert(inner.take(k) =~= np);
    lemma_trim_digits(np);
    assert(tail.skip(1) =~= ns);
    assert(trim_start_spec(tail) == trim_start_spec(ns));
    lemma_trim_digits(ns);
    assert(trim_spec(tail) == ns);
    assert(decimal_pair_spec(inner) == Some((p, sc)));
}

/// The enum value-range law: every 16-bit value, the extremes included,
/// written as an `Enum16` pair literal, is accepted with exactly that value.
/// Values outside the range are rejected by construction: the integer scan
/// (`scan_int_at`) yields no result beyond it, and a failed pair fails the
/// whole parse.
pub proof fn lemma_enum16_accepts(v: i16)
    ensures
        enum16_items_spec("Enum16('a'="@ + int_chars(v as int) + ")"@) == Some(
            seq![("a"@, v)],
        ),
{
    reveal_strlit("Enum16('a'=");
    reveal_strlit("Enum16");
    reveal_strlit("a");
    reveal_strlit(")");
    let ic = int_chars(v as int);
    let m = if v < 0 {
        -(v as int)
    } else {
        v as int
    };
    lemma_uint_chars(m);
    let text = "Enum16('a'="@ + ic + ")"@;
    let len = text.len() as int;
    assert(len == 12 + ic.len());
    let d0: int = if v < 0 {
        12
    } else {
        11
    };
    assert forall|j: int| d0 <= j < len - 1 implies is_digit_char(#[trigger] text[j]) by {
        assert(text[j] == uint_chars(m)[j - d0]);
    }
    assert(text[len - 1] == ')');
    assert(!is_digit_char(text[len - 1]));
    assert(skip_ws_at(text, 0) == 0);
    assert(text.subrange(0, 6) =~= "Enum16"@);
    assert(skip_ws_at(text, 6) == 6);
    assert(text[6] == '(');
    assert(skip_ws_at(text, 7) == 7);
    assert(text[7] == '\'');
    assert(scan_name_at(text, 9) == Some((Seq::<char>::empty(), 10int)));
    assert(text[8] == 'a');
    assert(scan_name_at(text, 8) == Some((seq![text[8]] + Seq::<char>::empty(), 10int)));
    assert(seq![text[8]] + Seq::<char>::empty() =~= "a"@);
    assert(skip_ws_at(text, 10) == 10);
    assert(text[10] == '=');
    assert(skip_ws_at(text, 11) == 11);
    if v < 0 {
        assert(text[11] == '-');
    } else {
        assert(is_digit_char(text[11]));
        assert(text[11] != '-') by {
            assert('-' as int == 45);
        }
        assert(!is_ws_char(text[11])) by {
            assert(' ' as int == 32 && '\t' as int == 9 && '\n' as int == 10 && '\r' as int
                == 13);
        }
    }
    lemma_digits_end_at(text, d0, len - 1);
    assert(text.subrange(d0, len - 1) =~= uint_chars(m));
    assert(scan_int_at(text, 11) == Some((v as int, len - 1)));
    assert(skip_ws_at(text, len - 1) == len - 1);
    assert(pair_at(text, 7) == Some(("a"@, v as int, len - 1)));
    assert(text[len - 1] != ',');
    assert(pairs_at(text, 7) == Some((seq![("a"@, v as int)], len)));
    assert(enum_body_spec(text, "Enum16"@) == Some(seq![("a"@, v as int)]));
    assert(seq![("a"@, v as int)].map_values(|p: (Seq<char>, int)| (p.0, p.1 as i16)) =~= seq![
        ("a"@, v)
    ]);
}

pub proof fn lemma_enc_u16s_len(vs: Seq<u16>)
    ensures
        enc_u16s(vs).len() == 2 * vs.len(),
    decreases vs.len(),
{
    lemma_auto_spec_u16_to_from_le_bytes();
    if vs.len() > 0 {
        lemma_enc_u16s_len(vs.skip(1));
    }
}

pub proof fn lemma_enc_u32s_len(vs: Seq<u32>)
    ensures
        enc_u32s(vs).len() == 4 * vs.len(),
    decreases vs.len(),
{
    lemma_auto_spec_u32_to_from_le_bytes();
    if vs.len() > 0 {
        lemma_enc_u32s_len(vs.skip(1));
    }
}

pub proof fn lemma_enc_u64s_len(vs: Seq<u64>)
    ensures
        enc_u64s(vs).len() == 8 * vs.len(),
    decreases vs.len(),
{
    lemma_auto_spec_u64_to_from_le_bytes();
    if vs.len() > 0 {
        lemma_enc_u64s_len(vs.skip(1));
    }
}

pub proof fn lemma_cat_rows_len(rows: Seq<Seq<u8>>, k: int)
    requires
        k >= 0,
        forall|i: int| 0 <= i < rows.len() ==> (#[trigger] rows[i]).len() == k,
    ensures
        cat_rows(rows).len() == rows.len() * k,
    decreases rows.len(),
{
    if rows.len() == 0 {
        assert(rows.len() * k == 0) by (nonlinear_arith)
            requires
                rows.len() == 0,
        ;
    } else {
        assert(forall|i: int| 0 <= i < rows.skip(1).len() ==> (#[trigger] rows.skip(1)[i]).len()
            == k);
        lemma_cat_rows_len(rows.skip(1), k);
        assert(k + (rows.len() - 1) * k == rows.len() * k) by (nonlinear_arith);
    }
}

proof fn lemma_enc_u16s_index(vs: Seq<u16>, i: int)
    requires
        0 <= i < vs.len(),
    ensures
        enc_u16s(vs).subrange(2 * i, 2 * i + 2) == spec_u16_to_le_bytes(vs[i]),
    decreases i,
{
    lemma_auto_spec_u16_to_from_le_bytes();
    lemma_enc_u16s_len(vs);
    if i == 0 {
        assert(enc_u16s(vs).subrange(0, 2) =~= spec_u16_to_le_bytes(vs[0]));
    } else {
        lemma_enc_u16s_len(vs.skip(1));
        lemma_enc_u16s_index(vs.skip(1), i - 1);
        assert(enc_u16s(vs).subrange(2 * i, 2 * i + 2) =~= enc_u16s(vs.skip(1)).subrange(
            2 * (i - 1),
            2 * (i - 1) + 2,
        ));
    }
}

proof fn lemma_enc_u32s_index(vs: Seq<u32>, i: int)
    requires
        0 <= i < vs.len(),
    ensures
        enc_u32s(vs).subrange(4 * i, 4 * i + 4) == spec_u32_to_le_bytes(vs[i]),
    decreases i,
{
    lemma_auto_spec_u32_to_from_le_bytes();
    lemma_enc_u32s_len(vs);
    if i == 0 {
        assert(enc_u32s(vs).subrange(0, 4) =~= spec_u32_to_le_bytes(vs[0]));
    } else {
        lemma_enc_u32s_len(vs.skip(1));
        lemma_enc_u32s_index(vs.skip(1), i - 1);
        assert(enc_u32s(vs).subrange(4 * i, 4 * i + 4) =~= enc_u32s(vs.skip(1)).subrange(
            4 * (i - 1),
            4 * (i - 1) + 4,
        ));
    }
}

proof fn lemma_enc_u64s_index(vs: Seq<u64>, i: int)
    requires
        0 <= i < vs.len(),
    ensures
        enc_u64s(vs).subrange(8 * i, 8 * i + 8) == spec_u64_to_le_bytes(vs[i]),
    decreases i,
{
    lemma_auto_spec_u64_to_from_le_bytes();
    lemma_enc_u64s_len(vs);
    if i == 0 {
        assert(enc_u64s(vs).subrange(0, 8) =~= spec_u64_to_le_bytes(vs[0]));
    } else {
        lemma_enc_u64s_len(vs.skip(1));
        lemma_enc_u64s_index(vs.skip(1), i - 1);
        assert(enc_u64s(vs).subrange(8 * i, 8 * i + 8) =~= enc_u64s(vs.skip(1)).subrange(
            8 * (i - 1),
            8 * (i - 1) + 8,
        ));
    }
}

#[verifier::spinoff_prover]
proof fn lemma_cat_rows_index(rows: Seq<Seq<u8>>, k: int, i: int)
    requires
        k >= 0,
        forall|j: int| 0 <= j < rows.len() ==> (#[trigger] rows[j]).len() == k,
        0 <= i < rows.len(),
    ensures
        cat_rows(rows).subrange(k * i, k * i + k) == rows[i],
    decreases i,
{
    lemma_cat_rows_len(rows, k);
    if i == 0 {
        assert(cat_rows(rows).subrange(0, k) =~= rows[0]);
    } else {
        assert(forall|j: int| 0 <= j < rows.skip(1).len() ==> (#[trigger] rows.skip(1)[j]).len()
            == k);
        lemma_cat_rows_len(rows.skip(1), k);
        lemma_cat_rows_index(rows.skip(1), k, i - 1);
        assert(k * i >= k && k * i + k <= cat_rows(rows).len()) by (nonlinear_arith)
            requires
                1 <= i < rows.len(),
                k >= 0,
                cat_rows(rows).len() == rows.len() * k,
        ;
        assert(k * (i - 1) == k * i - k && k * (i - 1) + k == k * i) by (nonlinear_arith);
        assert(cat_rows(rows).subrange(k * i, k * i + k) =~= cat_rows(rows.skip(1)).subrange(
            k * (i - 1),
            k * (i - 1) + k,
        ));
    }
}

proof fn lemma_rt_u16s(vs: Seq<u16>, rest: Seq<u8>)
    ensures
        dec_u16s(enc_u16s(vs) + rest, vs.len() as int) == Some(vs),
{
    lemma_auto_spec_u16_to_from_le_bytes();
    lemma_enc_u16s_len(vs);
    let s = enc_u16s(vs) + rest;
    let n = vs.len() as int;
    match dec_u16s(s, n) {
        Some(got) => {
            assert forall|i: int| 0 <= i < n implies got[i] == vs[i] by {
                lemma_enc_u16s_index(vs, i);
                assert(s.subrange(2 * i, 2 * i + 2) =~= enc_u16s(vs).subrange(2 * i, 2 * i + 2));
            }
            assert(got =~= vs);
        },
        None => {
            assert(false);
        },
    }
}

proof fn lemma_rt_u32s(vs: Seq<u32>, rest: Seq<u8>)
    ensures
        dec_u32s(enc_u32s(vs) + rest, vs.len() as int) == Some(vs),
{
    lemma_auto_spec_u32_to_from_le_bytes();
    lemma_enc_u32s_len(vs);
    let s = enc_u32s(vs) + rest;
    let n = vs.len() as int;
    match dec_u32s(s, n) {
        Some(got) => {
            assert forall|i: int| 0 <= i < n implies got[i] == vs[i] by {
                lemma_enc_u32s_index(vs, i);
                assert(s.subrange(4 * i, 4 * i + 4) =~= enc_u32s(vs).subrange(4 * i, 4 * i + 4));
            }
            assert(got =~= vs);
        },
        None => {
            assert(false);
        },
    }
}

proof fn lemma_rt_u64s(vs: Seq<u64>, rest: Seq<u8>)
    ensures
        dec_u64s(enc_u64s(vs) + rest, vs.len() as int) == Some(vs),
{
    lemma_auto_spec_u64_to_from_le_bytes();
    lemma_enc_u64s_len(vs);
    let s = enc_u64s(vs) + rest;
    let n = vs.len() as int;
    match dec_u64s(s, n) {
        Some(got) => {
            assert forall|i: int| 0 <= i < n implies got[i] == vs[i] by {
                lemma_enc_u64s_index(vs, i);
                assert(s.subrange(8 * i, 8 * i + 8) =~= enc_u64s(vs).subrange(8 * i, 8 * i + 8));
            }
            assert(got =~= vs);
        },
        None => {
            assert(false);
        },
    }
}

proof fn lemma_rt_fixed(rows: Seq<Seq<u8>>, k: int, rest: Seq<u8>)
    requires
        k >= 0,
        forall|j: int| 0 <= j < rows.len() ==> (#[trigger] rows[j]).len() == k,
    ensures
        dec_fixed_rows(cat_rows(rows) + rest, rows.len() as int, k) == Some(rows),
{
    lemma_cat_rows_len(rows, k);
    let s = cat_rows(rows) + rest;
    let n = rows.len() as int;
    assert(n * k == rows.len() * k) by (nonlinear_arith)
        requires
            n == rows.len(),
    ;
    match dec_fixed_rows(s, n, k) {
        Some(got) => {
            assert forall|i: int| 0 <= i < n implies got[i] == rows[i] by {
                lemma_cat_rows_index(rows, k, i);
                assert(k * i >= 0 && k * i + k <= n * k) by (nonlinear_arith)
                    requires
                        0 <= i < n,
                        k >= 0,
                ;
                assert(s.subrange(k * i, k * i + k) =~= cat_rows(rows).subrange(
                    k * i,
                    k * i + k,
                ));
            }
            assert(got =~= rows);
        },
        None => {
            assert(false);
        },
    }
}

proof fn lemma_rt_strs(rows: Seq<Seq<u8>>, rest: Seq<u8>)
    requires
        forall|j: int| 0 <= j < rows.len() ==> (#[trigger] rows[j]).len() <= usize::MAX,
    ensures
        dec_strs(enc_strs(rows) + rest, rows.len() as int) == Some(
            (rows, enc_strs(rows).len() as int),
        ),
    decreases rows.len(),
{
    let s = enc_strs(rows) + rest;
    let n = rows.len() as int;
    if rows.len() == 0 {
        assert(dec_strs(s, 0) == Some((Seq::<Seq<u8>>::empty(), 0int)));
        assert(rows =~= Seq::<Seq<u8>>::empty());
    } else {
        let row0 = rows[0];
        let l = row0.len() as u64;
        let tail = enc_strs(rows.skip(1));
        assert(s =~= vu_enc(l) + (row0 + tail + rest));
        lemma_vu_parse_enc(l, row0 + tail + rest);
        let k = vu_enc(l).len() as int;
        assert(vu_parse(s) == Some((l, k)));
        assert(s.subrange(k, k + l as int) =~= row0);
        assert(s.skip(k + l as int) =~= tail + rest);
        assert(forall|j: int| 0 <= j < rows.skip(1).len() ==> (#[trigger] rows.skip(1)[j]).len()
            <= usize::MAX);
        lemma_rt_strs(rows.skip(1), rest);
        assert(seq![row0] + rows.skip(1) =~= rows);
    }
}

/// The round trip: what a well-formed column encodes, decoding its type for
/// its row count reads back as exactly that column, consuming exactly its
/// encoding, whatever bytes follow.
#[verifier::rlimit(100)]
#[verifier::spinoff_prover]
pub proof fn lemma_round_trip(c: ColV, rest: Seq<u8>, z: Seq<char>)
    requires
        col_wf(c),
        col_tz_is(c, z),
    ensures
        col_dec(col_type(c), col_enc(c) + rest, col_len(c), z) == Some(
            (c, col_enc(c).len() as int),
        ),
    decreases c,
{
    let s = col_enc(c) + rest;
    match c {
        ColV::UInt8(vs) => {
            assert(s.take(vs.len() as int) =~= vs);
        },
        ColV::Int8(vs) => {
            assert(s.take(vs.len() as int) =~= vs);
        },
        ColV::UInt16(vs) => {
            lemma_rt_u16s(vs, rest);
            lemma_enc_u16s_len(vs);
        },
        ColV::Int16(vs) => {
            lemma_rt_u16s(vs, rest);
            lemma_enc_u16s_len(vs);
        },
        ColV::UInt32(vs) => {
            lemma_rt_u32s(vs, rest);
            lemma_enc_u32s_len(vs);
        },
        ColV::Int32(vs) => {
            lemma_rt_u32s(vs, rest);
            lemma_enc_u32s_len(vs);
        },
        ColV::UInt64(vs) => {
            lemma_rt_u64s(vs, rest);
            lemma_enc_u64s_len(vs);
        },
        ColV::Int64(vs) => {
            lemma_rt_u64s(vs, rest);
            lemma_enc_u64s_len(vs);
        },
        ColV::Float32(vs) => {
            lemma_rt_u32s(vs, rest);
            lemma_enc_u32s_len(vs);
        },
        ColV::Float64(vs) => {
            lemma_rt_u64s(vs, rest);
            lemma_enc_u64s_len(vs);
        },
        ColV::String(rows) => {
            lemma_rt_strs(rows, rest);
        },
        ColV::FixedString(k, rows) => {
            lemma_rt_fixed(rows, k as int, rest);
            lemma_cat_rows_len(rows, k as int);
            assert(rows.len() * (k as int) == (rows.len() as int) * (k as int));
        },
        ColV::Date(_tz, vs) => {
            lemma_rt_u16s(vs, rest);
            lemma_enc_u16s_len(vs);
        },
        ColV::DateTime(_tz, vs) => {
            lemma_rt_u32s(vs, rest);
            lemma_enc_u32s_len(vs);
        },
        ColV::Ipv4(rows) => {
            lemma_rt_fixed(rows, 4, rest);
            lemma_cat_rows_len(rows, 4);
        },
        ColV::Ipv6(rows) => {
            lemma_rt_fixed(rows, 16, rest);
            lemma_cat_rows_len(rows, 16);
        },
        ColV::Uuid(rows) => {
            lemma_rt_fixed(rows, 16, rest);
            lemma_cat_rows_len(rows, 16);
        },
        ColV::Decimal(p, sc, bits, inner) => {
            match bits {
                NoBits::N32 => {
                    match *inner {
                        ColV::Int32(vs) => {
                            assert(col_enc(*inner) == enc_u32s(vs));
                            assert(col_len(*inner) == vs.len() as int);
                            lemma_rt_u32s(vs, rest);
                            lemma_enc_u32s_len(vs);
                        },
                        _ => {
                            assert(false);
                        },
                    }
                },
                NoBits::N64 => {
                    match *inner {
                        ColV::Int64(vs) => {
                            assert(col_enc(*inner) == enc_u64s(vs));
                            assert(col_len(*inner) == vs.len() as int);
                            lemma_rt_u64s(vs, rest);
                            lemma_enc_u64s_len(vs);
                        },
                        _ => {
                            assert(false);
                        },
                    }
                },
            }
        },
        ColV::Enum8(m, inner) => {
            match *inner {
                ColV::Int8(vs) => {
                    assert(col_enc(*inner) == vs);
                    assert(col_len(*inner) == vs.len() as int);
                    assert(s.take(vs.len() as int) =~= vs);
                },
                _ => {
                    assert(false);
                },
            }
        },
        ColV::Enum16(m, inner) => {
            match *inner {
                ColV::Int16(vs) => {
                    assert(col_enc(*inner) == enc_u16s(vs));
                    assert(col_len(*inner) == vs.len() as int);
                    lemma_rt_u16s(vs, rest);
                    lemma_enc_u16s_len(vs);
                },
                _ => {
                    assert(false);
                },
            }
        },
        ColV::Nullable(inner, nulls) => {
            let n = nulls.len() as int;
            assert(s.take(n) =~= nulls);
            assert(s.skip(n) =~= col_enc(*inner) + rest);
            lemma_round_trip(*inner, rest, z);
        },
        ColV::Array(inner, offsets) => {
            let n = offsets.len() as int;
            lemma_enc_u64s_len(offsets);
            assert(s =~= enc_u64s(offsets) + (col_enc(*inner) + rest));
            lemma_rt_u64s(offsets, col_enc(*inner) + rest);
            assert(s.skip(8 * n) =~= col_enc(*inner) + rest);
            lemma_round_trip(*inner, rest, z);
        },
    }
}

/// The offsets law: whenever a decode yields an array column, its offsets
/// never decrease and the last one equals the flattened inner column's
/// length.
pub proof fn lemma_decoded_array_offsets(t: TypeV, s: Seq<u8>, n: int, z: Seq<char>)
    ensures
        match col_dec(t, s, n, z) {
            Some((c, _k)) => match c {
                ColV::Array(inner, offsets) => offsets_mono(offsets) && offsets_total(offsets)
                    == col_len(*inner),
                _ => true,
            },
            None => true,
        },
{
    lemma_col_dec_props(t, s, n, z);
}

} // verus!
