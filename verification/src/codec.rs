//! Binary decode of columns: what each canonical type reads from the byte
//! stream for `n` rows, as a total specification, and the verified readers
//! that implement it.

use vstd::prelude::*;
use vstd::bytes::{
    lemma_auto_spec_u16_to_from_le_bytes, lemma_auto_spec_u32_to_from_le_bytes,
    lemma_auto_spec_u64_to_from_le_bytes, spec_u16_from_le_bytes, spec_u32_from_le_bytes,
    spec_u64_from_le_bytes,
};

use crate::column::{clone_mapping16, clone_mapping8, col_len, col_tz_is, col_type, col_wf,
    offsets_mono, offsets_total, ColV, ColumnData};
use crate::parser::{classify, spec_classify};
use crate::reader::{vu_parse, ByteReader};
use crate::types::{NoBits, SqlType, Timezone, TypeV};
use crate::Error;

verus! {

/// The values of `n` little-endian 16-bit reads from the front of `s`.
pub open spec fn dec_u16s(s: Seq<u8>, n: int) -> Option<Seq<u16>> {
    if 0 <= n && 2 * n <= s.len() {
        Some(Seq::new(n as nat, |i: int| spec_u16_from_le_bytes(s.subrange(2 * i, 2 * i + 2))))
    } else {
        None
    }
}

/// The values of `n` little-endian 32-bit reads from the front of `s`.
pub open spec fn dec_u32s(s: Seq<u8>, n: int) -> Option<Seq<u32>> {
    if 0 <= n && 4 * n <= s.len() {
        Some(Seq::new(n as nat, |i: int| spec_u32_from_le_bytes(s.subrange(4 * i, 4 * i + 4))))
    } else {
        None
    }
}

/// The values of `n` little-endian 64-bit reads from the front of `s`.
pub open spec fn dec_u64s(s: Seq<u8>, n: int) -> Option<Seq<u64>> {
    if 0 <= n && 8 * n <= s.len() {
        Some(Seq::new(n as nat, |i: int| spec_u64_from_le_bytes(s.subrange(8 * i, 8 * i + 8))))
    } else {
        None
    }
}

/// `n` rows of exactly `k` bytes each.
pub open spec fn dec_fixed_rows(s: Seq<u8>, n: int, k: int) -> Option<Seq<Seq<u8>>> {
    if 0 <= n && 0 <= k && n * k <= s.len() {
        Some(Seq::new(n as nat, |i: int| s.subrange(k * i, k * i + k)))
    } else {
        None
    }
}

/// `n` length-prefixed rows: each a varuint byte count, then that many
/// bytes. Yields the rows and the total bytes consumed.
pub open spec fn dec_strs(s: Seq<u8>, n: int) -> Option<(Seq<Seq<u8>>, int)>
    decreases n,
{
    if n <= 0 {
        if n == 0 {
            Some((Seq::empty(), 0))
        } else {
            None
        }
    } else {
        match vu_parse(s) {
            Some((l, k)) => {
                if l <= usize::MAX && k + l <= s.len() {
                    match dec_strs(s.skip(k + l as int), n - 1) {
                        Some((rows, t)) => Some(
                            (seq![s.subrange(k, k + l as int)] + rows, k + l + t),
                        ),
                        None => None,
                    }
                } else {
                    None
                }
            },
            None => None,
        }
    }
}

/// What decoding `n` rows of type `t` takes from the front of `s`, with
/// timezone `z` stamped on date columns: the column and the bytes consumed,
/// or `None` when the stream is too short, an array's offsets decrease or
/// overflow the machine, or a decimal precision has no backing width.
pub open spec fn col_dec(t: TypeV, s: Seq<u8>, n: int, z: Seq<char>) -> Option<(ColV, int)>
    decreases t,
{
    match t {
        TypeV::UInt8 => {
            if 0 <= n <= s.len() {
                Some((ColV::UInt8(s.take(n)), n))
            } else {
                None
            }
        },
        TypeV::Int8 => {
            if 0 <= n <= s.len() {
                Some((ColV::Int8(s.take(n)), n))
            } else {
                None
            }
        },
        TypeV::UInt16 => match dec_u16s(s, n) {
            Some(vs) => Some((ColV::UInt16(vs), 2 * n)),
            None => None,
        },
        TypeV::Int16 => match dec_u16s(s, n) {
            Some(vs) => Some((ColV::Int16(vs), 2 * n)),
            None => None,
        },
        TypeV::UInt32 => match dec_u32s(s, n) {
            Some(vs) => Some((ColV::UInt32(vs), 4 * n)),
            None => None,
        },
        TypeV::Int32 => match dec_u32s(s, n) {
            Some(vs) => Some((ColV::Int32(vs), 4 * n)),
            None => None,
        },
        TypeV::UInt64 => match dec_u64s(s, n) {
            Some(vs) => Some((ColV::UInt64(vs), 8 * n)),
            None => None,
        },
        TypeV::Int64 => match dec_u64s(s, n) {
            Some(vs) => Some((ColV::Int64(vs), 8 * n)),
            None => None,
        },
        TypeV::Float32 => match dec_u32s(s, n) {
            Some(vs) => Some((ColV::Float32(vs), 4 * n)),
            None => None,
        },
        TypeV::Float64 => match dec_u64s(s, n) {
            Some(vs) => Some((ColV::Float64(vs), 8 * n)),
            None => None,
        },
        TypeV::String => match dec_strs(s, n) {
            Some((rows, t2)) => Some((ColV::String(rows), t2)),
            None => None,
        },
        TypeV::FixedString(k) => match dec_fixed_rows(s, n, k as int) {
            Some(rows) => Some((ColV::FixedString(k, rows), n * k)),
            None => None,
        },
        TypeV::Date => match dec_u16s(s, n) {
            Some(vs) => Some((ColV::Date(z, vs), 2 * n)),
            None => None,
        },
        TypeV::DateTime => match dec_u32s(s, n) {
            Some(vs) => Some((ColV::DateTime(z, vs), 4 * n)),
            None => None,
        },
        TypeV::Ipv4 => match dec_fixed_rows(s, n, 4) {
            Some(rows) => Some((ColV::Ipv4(rows), 4 * n)),
            None => None,
        },
        TypeV::Ipv6 => match dec_fixed_rows(s, n, 16) {
            Some(rows) => Some((ColV::Ipv6(rows), 16 * n)),
            None => None,
        },
        TypeV::Uuid => match dec_fixed_rows(s, n, 16) {
            Some(rows) => Some((ColV::Uuid(rows), 16 * n)),
            None => None,
        },
        TypeV::Decimal(p, sc) => match NoBits::spec_from_precision(p) {
            Some(NoBits::N32) => match dec_u32s(s, n) {
                Some(vs) => Some(
                    (
                        ColV::Decimal(p, sc, NoBits::N32, Box::new(ColV::Int32(vs))),
                        4 * n,
                    ),
                ),
                None => None,
            },
            Some(NoBits::N64) => match dec_u64s(s, n) {
                Some(vs) => Some(
                    (
                        ColV::Decimal(p, sc, NoBits::N64, Box::new(ColV::Int64(vs))),
                        8 * n,
                    ),
                ),
                None => None,
            },
            None => None,
        },
        TypeV::Enum8(m) => {
            if 0 <= n <= s.len() {
                Some((ColV::Enum8(m, Box::new(ColV::Int8(s.take(n)))), n))
            } else {
                None
            }
        },
        TypeV::Enum16(m) => match dec_u16s(s, n) {
            Some(vs) => Some((ColV::Enum16(m, Box::new(ColV::Int16(vs))), 2 * n)),
            None => None,
        },
        TypeV::Nullable(inner) => {
            if 0 <= n <= s.len() {
                match col_dec(*inner, s.skip(n), n, z) {
                    Some((ic, k)) => Some((ColV::Nullable(Box::new(ic), s.take(n)), n + k)),
                    None => None,
                }
            } else {
                None
            }
        },
        TypeV::Array(inner) => match dec_u64s(s, n) {
            Some(offs) => {
                if offsets_mono(offs) && 0 <= offsets_total(offs) <= usize::MAX {
                    match col_dec(*inner, s.skip(8 * n), offsets_total(offs), z) {
                        Some((ic, k)) => Some((ColV::Array(Box::new(ic), offs), 8 * n + k)),
                        None => None,
                    }
                } else {
                    None
                }
            },
            None => None,
        },
    }
}

/// What decoding promises of its result: a well-formed column of the asked
/// type and row count, carrying the given timezone, whose consumed byte
/// count never exceeds the stream.
pub proof fn lemma_col_dec_props(t: TypeV, s: Seq<u8>, n: int, z: Seq<char>)
    ensures
        match col_dec(t, s, n, z) {
            Some((c, k)) => col_wf(c) && col_type(c) == t && col_len(c) == n && col_tz_is(c, z)
                && 0 <= k <= s.len(),
            None => true,
        },
    decreases t,
{
    match t {
        TypeV::String => {
            lemma_dec_strs_props(s, n);
        },
        TypeV::FixedString(k0) => {
            let k = k0 as int;
            match dec_fixed_rows(s, n, k) {
                Some(rows) => {
                    assert forall|i: int| 0 <= i < rows.len() implies (#[trigger] rows[i]).len()
                        == k by {
                        assert(k * i >= 0 && k * i + k <= k * n) by (nonlinear_arith)
                            requires
                                0 <= i < n,
                                k >= 0,
                        ;
                        assert(k * n == n * k) by (nonlinear_arith);
                        assert(rows[i] == s.subrange(k * i, k * i + k));
                    }
                },
                None => {},
            }
        },
        TypeV::Decimal(p, _sc) => {
            match NoBits::spec_from_precision(p) {
                Some(NoBits::N32) => {
                    match dec_u32s(s, n) {
                        Some(vs) => {
                            let ic = ColV::Int32(vs);
                            assert(col_wf(ic) && col_len(ic) == n && col_tz_is(ic, z));
                        },
                        None => {},
                    }
                },
                Some(NoBits::N64) => {
                    match dec_u64s(s, n) {
                        Some(vs) => {
                            let ic = ColV::Int64(vs);
                            assert(col_wf(ic) && col_len(ic) == n && col_tz_is(ic, z));
                        },
                        None => {},
                    }
                },
                None => {},
            }
        },
        TypeV::Enum8(_m) => {
            if 0 <= n <= s.len() {
                let ic = ColV::Int8(s.take(n));
                assert(col_wf(ic) && col_len(ic) == n && col_tz_is(ic, z));
            }
        },
        TypeV::Enum16(_m) => {
            match dec_u16s(s, n) {
                Some(vs) => {
                    let ic = ColV::Int16(vs);
                    assert(col_wf(ic) && col_len(ic) == n && col_tz_is(ic, z));
                },
                None => {},
            }
        },
        TypeV::Nullable(inner) => {
            if 0 <= n <= s.len() {
                lemma_col_dec_props(*inner, s.skip(n), n, z);
            }
        },
        TypeV::Array(inner) => {
            match dec_u64s(s, n) {
                Some(offs) => {
                    if offsets_mono(offs) && 0 <= offsets_total(offs) <= usize::MAX {
                        lemma_col_dec_props(*inner, s.skip(8 * n), offsets_total(offs), z);
                    }
                },
                None => {},
            }
        },
        _ => {},
    }
}

pub proof fn lemma_dec_strs_props(s: Seq<u8>, n: int)
    ensures
        match dec_strs(s, n) {
            Some((rows, t)) => rows.len() == n && 0 <= t <= s.len() && forall|i: int|
                0 <= i < rows.len() ==> (#[trigger] rows[i]).len() <= usize::MAX,
            None => true,
        },
    decreases n,
{
    if n > 0 {
        match vu_parse(s) {
            Some((l, k)) => {
                if l <= usize::MAX && k + l <= s.len() {
                    lemma_vu_parse_bounds(s);
                    lemma_dec_strs_props(s.skip(k + l as int), n - 1);
                }
            },
            None => {},
        }
    }
}

/// A varuint never consumes more than the stream holds, and takes at least
/// one byte.
pub proof fn lemma_vu_parse_bounds(s: Seq<u8>)
    ensures
        match vu_parse(s) {
            Some((l, k)) => 1 <= k <= s.len(),
            None => true,
        },
    decreases s.len(),
{
    if s.len() > 0 && s[0] >= 128 {
        lemma_vu_parse_bounds(s.skip(1));
    }
}

fn load_u16s(r: &mut ByteReader, n: usize) -> (res: Result<Vec<u16>, Error>)
    requires
        old(r).wf(),
    ensures
        final(r).wf(),
        final(r).data == old(r).data,
        match res {
            Ok(v) => dec_u16s(old(r).remaining(), n as int) == Some(v@) && final(r).pos == old(
                r,
            ).pos + 2 * n,
            Err(e) => e == Error::ReadFailure && dec_u16s(old(r).remaining(), n as int)
                is None,
        },
{
    let ghost orig = old(r).remaining();
    let ghost pos0 = old(r).pos;
    let mut out: Vec<u16> = Vec::new();
    let mut i: usize = 0;
    while i < n
        invariant
            0 <= i <= n,
            r.wf(),
            r.data == old(r).data,
            orig == old(r).remaining(),
            pos0 == old(r).pos,
            r.pos == pos0 + 2 * i,
            out@.len() == i,
            forall|j: int| 0 <= j < i ==> out@[j] == spec_u16_from_le_bytes(
                orig.subrange(2 * j, 2 * j + 2),
            ),
        decreases n - i,
    {
        proof {
            assert(r.remaining() =~= orig.skip(2 * i));
        }
        match r.read_u16_le() {
            Ok(x) => {
                proof {
                    lemma_auto_spec_u16_to_from_le_bytes();
                    assert(orig.subrange(2 * i, 2 * i + 2) =~= orig.skip(2 * i).take(2));
                }
                out.push(x);
                i = i + 1;
            },
            Err(e) => {
                return Err(e);
            },
        }
    }
    proof {
        match dec_u16s(orig, n as int) {
            Some(vs) => {
                assert(vs =~= out@);
            },
            None => {
                assert(false);
            },
        }
    }
    Ok(out)
}

fn load_u32s(r: &mut ByteReader, n: usize) -> (res: Result<Vec<u32>, Error>)
    requires
        old(r).wf(),
    ensures
        final(r).wf(),
        final(r).data == old(r).data,
        match res {
            Ok(v) => dec_u32s(old(r).remaining(), n as int) == Some(v@) && final(r).pos == old(
                r,
            ).pos + 4 * n,
            Err(e) => e == Error::ReadFailure && dec_u32s(old(r).remaining(), n as int)
                is None,
        },
{
    let ghost orig = old(r).remaining();
    let ghost pos0 = old(r).pos;
    let mut out: Vec<u32> = Vec::new();
    let mut i: usize = 0;
    while i < n
        invariant
            0 <= i <= n,
            r.wf(),
            r.data == old(r).data,
            orig == old(r).remaining(),
            pos0 == old(r).pos,
            r.pos == pos0 + 4 * i,
            out@.len() == i,
            forall|j: int| 0 <= j < i ==> out@[j] == spec_u32_from_le_bytes(
                orig.subrange(4 * j, 4 * j + 4),
            ),
        decreases n - i,
    {
        proof {
            assert(r.remaining() =~= orig.skip(4 * i));
        }
        match r.read_u32_le() {
            Ok(x) => {
                proof {
                    lemma_auto_spec_u32_to_from_le_bytes();
                    assert(orig.subrange(4 * i, 4 * i + 4) =~= orig.skip(4 * i).take(4));
                }
                out.push(x);
                i = i + 1;
            },
            Err(e) => {
                return Err(e);
            },
        }
    }
    proof {
        match dec_u32s(orig, n as int) {
            Some(vs) => {
                assert(vs =~= out@);
            },
            None => {
                assert(false);
            },
        }
    }
    Ok(out)
}

fn load_u64s(r: &mut ByteReader, n: usize) -> (res: Result<Vec<u64>, Error>)
    requires
        old(r).wf(),
    ensures
        final(r).wf(),
        final(r).data == old(r).data,
        match res {
            Ok(v) => dec_u64s(old(r).remaining(), n as int) == Some(v@) && final(r).pos == old(
                r,
            ).pos + 8 * n,
            Err(e) => e == Error::ReadFailure && dec_u64s(old(r).remaining(), n as int)
                is None,
        },
{
    let ghost orig = old(r).remaining();
    let ghost pos0 = old(r).pos;
    let mut out: Vec<u64> = Vec::new();
    let mut i: usize = 0;
    while i < n
        invariant
            0 <= i <= n,
            r.wf(),
            r.data == old(r).data,
            orig == old(r).remaining(),
            pos0 == old(r).pos,
            r.pos == pos0 + 8 * i,
            out@.len() == i,
            forall|j: int| 0 <= j < i ==> out@[j] == spec_u64_from_le_bytes(
                orig.subrange(8 * j, 8 * j + 8),
            ),
        decreases n - i,
    {
        proof {
            assert(r.remaining() =~= orig.skip(8 * i));
        }
        match r.read_u64_le() {
            Ok(x) => {
                proof {
                    lemma_auto_spec_u64_to_from_le_bytes();
                    assert(orig.subrange(8 * i, 8 * i + 8) =~= orig.skip(8 * i).take(8));
                }
                out.push(x);
                i = i + 1;
            },
            Err(e) => {
                return Err(e);
            },
        }
    }
    proof {
        match dec_u64s(orig, n as int) {
            Some(vs) => {
                assert(vs =~= out@);
            },
            None => {
                assert(false);
            },
        }
    }
    Ok(out)
}

fn load_fixed_rows(r: &mut ByteReader, n: usize, k: usize) -> (res: Result<Vec<Vec<u8>>, Error>)
    requires
        old(r).wf(),
    ensures
        final(r).wf(),
        final(r).data == old(r).data,
        match res {
            Ok(v) => dec_fixed_rows(old(r).remaining(), n as int, k as int) == Some(
                v@.map_values(|x: Vec<u8>| x@),
            ) && final(r).pos == old(r).pos + n * k,
            Err(e) => e == Error::ReadFailure && dec_fixed_rows(
                old(r).remaining(),
                n as int,
                k as int,
            ) is None,
        },
{
    let ghost orig = old(r).remaining();
    let ghost pos0 = old(r).pos;
    let mut out: Vec<Vec<u8>> = Vec::new();
    let mut i: usize = 0;
    while i < n
        invariant
            0 <= i <= n,
            r.wf(),
            r.data == old(r).data,
            orig == old(r).remaining(),
            pos0 == old(r).pos,
            r.pos == pos0 + k * i,
            out@.len() == i,
            forall|j: int| 0 <= j < i ==> (#[trigger] out@[j])@ == orig.subrange(
                k * j,
                k * j + k,
            ),
        decreases n - i,
    {
        proof {
            assert(r.remaining() =~= orig.skip(k * i));
            assert(k * (i + 1) == k * i + k) by (nonlinear_arith);
        }
        match r.read_exact(k) {
            Ok(row) => {
                proof {
                    assert(orig.subrange(k * i, k * i + k) =~= orig.skip(k * i).take(k as int));
                }
                out.push(row);
                i = i + 1;
            },
            Err(e) => {
                proof {
                    assert(orig.len() < k * i + k);
                    assert(k * i + k <= k * n) by (nonlinear_arith)
                        requires
                            i < n,
                            k >= 0,
                    ;
                    assert(k * n == n * k) by (nonlinear_arith);
                }
                return Err(e);
            },
        }
    }
    proof {
        assert(k * n == n * k) by (nonlinear_arith);
        match dec_fixed_rows(orig, n as int, k as int) {
            Some(rows) => {
                assert(rows =~~= out@.map_values(|x: Vec<u8>| x@));
            },
            None => {
                assert(false);
            },
        }
    }
    Ok(out)
}

fn load_strs(r: &mut ByteReader, n: usize) -> (res: Result<Vec<Vec<u8>>, Error>)
    requires
        old(r).wf(),
    ensures
        final(r).wf(),
        final(r).data == old(r).data,
        match res {
            Ok(v) => dec_strs(old(r).remaining(), n as int) == Some(
                (v@.map_values(|x: Vec<u8>| x@), final(r).pos - old(r).pos as int),
            ),
            Err(e) => e == Error::ReadFailure && dec_strs(old(r).remaining(), n as int)
                is None,
        },
{
    let ghost orig = old(r).remaining();
    let ghost pos0 = old(r).pos;
    let mut out: Vec<Vec<u8>> = Vec::new();
    let mut i: usize = 0;
    while i < n
        invariant
            0 <= i <= n,
            r.wf(),
            r.data == old(r).data,
            orig == old(r).remaining(),
            pos0 == old(r).pos,
            pos0 <= r.pos,
            out@.len() == i,
            match dec_strs(r.remaining(), n - i) {
                Some(p) => dec_strs(orig, n as int) == Some(
                    (out@.map_values(|x: Vec<u8>| x@) + p.0, r.pos - pos0 + p.1),
                ),
                None => dec_strs(orig, n as int) is None,
            },
        decreases n - i,
    {
        let ghost before = out@.map_values(|x: Vec<u8>| x@);
        let ghost rem0 = r.remaining();
        let l = match r.read_uvarint() {
            Ok(l) => l,
            Err(e) => {
                return Err(e);
            },
        };
        proof {
            lemma_vu_parse_bounds(rem0);
            let (l0, k0) = vu_parse(rem0).unwrap();
            assert(r.remaining() =~= rem0.skip(k0));
        }
        let ghost rem1 = r.remaining();
        if l > usize::MAX as u64 {
            return Err(Error::ReadFailure);
        }
        let row = match r.read_exact(l as usize) {
            Ok(row) => row,
            Err(e) => {
                proof {
                    let (l0, k0) = vu_parse(rem0).unwrap();
                    assert(k0 + l0 > rem0.len());
                }
                return Err(e);
            },
        };
        proof {
            lemma_vu_parse_bounds(rem0);
            let (l0, k0) = vu_parse(rem0).unwrap();
            assert(row@ == rem1.take(l0 as int));
            assert(rem0.skip(k0).take(l0 as int) =~= rem0.subrange(k0, k0 + l0 as int));
        }
        let ghost rowv = row@;
        out.push(row);
        proof {
            let (l0, k0) = vu_parse(rem0).unwrap();
            assert(out@.map_values(|x: Vec<u8>| x@) =~= before.push(rowv));
            assert(r.remaining() =~= rem0.skip(k0 + l0 as int));
            match dec_strs(r.remaining(), n - i - 1) {
                Some(p) => {
                    assert(before + (seq![rowv] + p.0) =~= before.push(rowv) + p.0);
                },
                None => {},
            }
        }
        i = i + 1;
    }
    proof {
        match dec_strs(orig, n as int) {
            Some(p) => {
                assert(out@.map_values(|x: Vec<u8>| x@) + Seq::<Seq<u8>>::empty() =~= out@
                    .map_values(|x: Vec<u8>| x@));
            },
            None => {
                assert(false);
            },
        }
    }
    Ok(out)
}

/// Reads the rows of a fixed-width numeric, date or datetime column.
#[verifier::rlimit(80)]
#[verifier::spinoff_prover]
fn load_leaf_nums(t: &SqlType, reader: &mut ByteReader, size: usize, tz: &Timezone) -> (res:
    Result<ColumnData, Error>)
    requires
        old(reader).wf(),
        *t matches SqlType::UInt8 || *t matches SqlType::Int8 || *t matches SqlType::UInt16
            || *t matches SqlType::Int16 || *t matches SqlType::UInt32 || *t
            matches SqlType::Int32 || *t matches SqlType::UInt64 || *t matches SqlType::Int64
            || *t matches SqlType::Float32 || *t matches SqlType::Float64 || *t
            matches SqlType::Date || *t matches SqlType::DateTime,
    ensures
        final(reader).wf(),
        final(reader).data == old(reader).data,
        match res {
            Ok(c) => col_dec(t@, old(reader).remaining(), size as int, tz@) == Some(
                (c@, final(reader).pos - old(reader).pos as int),
            ),
            Err(e) => e == Error::ReadFailure && col_dec(
                t@,
                old(reader).remaining(),
                size as int,
                tz@,
            ) is None,
        },
{
    match t {
            SqlType::UInt8 => {
                match reader.read_exact(size) {
                    Ok(v) => Ok(ColumnData::UInt8(v)),
                    Err(e) => Err(e),
                }
            },
            SqlType::Int8 => {
                match reader.read_exact(size) {
                    Ok(v) => Ok(ColumnData::Int8(v)),
                    Err(e) => Err(e),
                }
            },
            SqlType::UInt16 => {
                match load_u16s(reader, size) {
                    Ok(v) => Ok(ColumnData::UInt16(v)),
                    Err(e) => Err(e),
                }
            },
            SqlType::Int16 => {
                match load_u16s(reader, size) {
                    Ok(v) => Ok(ColumnData::Int16(v)),
                    Err(e) => Err(e),
                }
            },
            SqlType::UInt32 => {
                match load_u32s(reader, size) {
                    Ok(v) => Ok(ColumnData::UInt32(v)),
                    Err(e) => Err(e),
                }
            },
            SqlType::Int32 => {
                match load_u32s(reader, size) {
                    Ok(v) => Ok(ColumnData::Int32(v)),
                    Err(e) => Err(e),
                }
            },
            SqlType::UInt64 => {
                match load_u64s(reader, size) {
                    Ok(v) => Ok(ColumnData::UInt64(v)),
                    Err(e) => Err(e),
                }
            },
            SqlType::Int64 => {
                match load_u64s(reader, size) {
                    Ok(v) => Ok(ColumnData::Int64(v)),
                    Err(e) => Err(e),
                }
            },
            SqlType::Float32 => {
                match load_u32s(reader, size) {
                    Ok(v) => Ok(ColumnData::Float32(v)),
                    Err(e) => Err(e),
                }
            },
            SqlType::Float64 => {
                match load_u64s(reader, size) {
                    Ok(v) => Ok(ColumnData::Float64(v)),
                    Err(e) => Err(e),
                }
            },
            SqlType::Date => {
                match load_u16s(reader, size) {
                    Ok(v) => Ok(ColumnData::Date(tz.duplicate(), v)),
                    Err(e) => Err(e),
                }
            },
            SqlType::DateTime => {
                match load_u32s(reader, size) {
                    Ok(v) => Ok(ColumnData::DateTime(tz.duplicate(), v)),
                    Err(e) => Err(e),
                }
            },
        _ => {
            proof {
                assert(false);
            }
            Err(Error::ReadFailure)
        },
    }
}

/// Reads the rows of a string, fixed-string or address column.
#[verifier::rlimit(80)]
#[verifier::spinoff_prover]
fn load_leaf_rows(t: &SqlType, reader: &mut ByteReader, size: usize, tz: &Timezone) -> (res:
    Result<ColumnData, Error>)
    requires
        old(reader).wf(),
        *t matches SqlType::String || *t matches SqlType::FixedString(_) || *t
            matches SqlType::Ipv4 || *t matches SqlType::Ipv6 || *t matches SqlType::Uuid,
    ensures
        final(reader).wf(),
        final(reader).data == old(reader).data,
        match res {
            Ok(c) => col_dec(t@, old(reader).remaining(), size as int, tz@) == Some(
                (c@, final(reader).pos - old(reader).pos as int),
            ),
            Err(e) => e == Error::ReadFailure && col_dec(
                t@,
                old(reader).remaining(),
                size as int,
                tz@,
            ) is None,
        },
{
    match t {
            SqlType::String => {
                match load_strs(reader, size) {
                    Ok(rows) => {
                        let c = ColumnData::String(rows);
                        proof {
                            assert(col_dec(t@, old(reader).remaining(), size as int, tz@)
                                =~~= Some(
                                (c@, reader.pos - old(reader).pos as int),
                            ));
                        }
                        Ok(c)
                    },
                    Err(e) => Err(e),
                }
            },
            SqlType::FixedString(k) => {
                match load_fixed_rows(reader, size, *k) {
                    Ok(rows) => {
                        let c = ColumnData::FixedString(*k, rows);
                        proof {
                            assert(col_dec(t@, old(reader).remaining(), size as int, tz@)
                                =~~= Some(
                                (c@, reader.pos - old(reader).pos as int),
                            ));
                        }
                        Ok(c)
                    },
                    Err(e) => Err(e),
                }
            },
            SqlType::Ipv4 => {
                match load_fixed_rows(reader, size, 4) {
                    Ok(rows) => {
                        let c = ColumnData::Ipv4(rows);
                        proof {
                            assert(col_dec(t@, old(reader).remaining(), size as int, tz@)
                                =~~= Some(
                                (c@, reader.pos - old(reader).pos as int),
                            ));
                        }
                        Ok(c)
                    },
                    Err(e) => Err(e),
                }
            },
            SqlType::Ipv6 => {
                match load_fixed_rows(reader, size, 16) {
                    Ok(rows) => {
                        let c = ColumnData::Ipv6(rows);
                        proof {
                            assert(col_dec(t@, old(reader).remaining(), size as int, tz@)
                                =~~= Some(
                                (c@, reader.pos - old(reader).pos as int),
                            ));
                        }
                        Ok(c)
                    },
                    Err(e) => Err(e),
                }
            },
            SqlType::Uuid => {
                match load_fixed_rows(reader, size, 16) {
                    Ok(rows) => {
                        let c = ColumnData::Uuid(rows);
                        proof {
                            assert(col_dec(t@, old(reader).remaining(), size as int, tz@)
                                =~~= Some(
                                (c@, reader.pos - old(reader).pos as int),
                            ));
                        }
                        Ok(c)
                    },
                    Err(e) => Err(e),
                }
            },
        _ => {
            proof {
                assert(false);
            }
            Err(Error::ReadFailure)
        },
    }
}

/// Reads the rows of a non-composite column type.
#[verifier::rlimit(80)]
#[verifier::spinoff_prover]
fn load_leaf(t: &SqlType, reader: &mut ByteReader, size: usize, tz: &Timezone) -> (res: Result<
    ColumnData,
    Error,
>)
    requires
        old(reader).wf(),
        !(*t matches SqlType::Decimal(_, _) || *t matches SqlType::Enum8(_) || *t
            matches SqlType::Enum16(_) || *t matches SqlType::Nullable(_) || *t
            matches SqlType::Array(_)),
    ensures
        final(reader).wf(),
        final(reader).data == old(reader).data,
        match res {
            Ok(c) => col_dec(t@, old(reader).remaining(), size as int, tz@) == Some(
                (c@, final(reader).pos - old(reader).pos as int),
            ),
            Err(e) => e == Error::ReadFailure && col_dec(
                t@,
                old(reader).remaining(),
                size as int,
                tz@,
            ) is None,
        },
{
    match t {
        SqlType::String | SqlType::FixedString(_) | SqlType::Ipv4 | SqlType::Ipv6
            | SqlType::Uuid => load_leaf_rows(t, reader, size, tz),
        _ => load_leaf_nums(t, reader, size, tz),
    }
}

impl ColumnData {
    /// Reads `size` rows of the canonical type `t` from the byte source,
    /// stamping date columns with `tz`. Succeeds exactly when the
    /// specification-level decode does, and returns its column.
    #[verifier::rlimit(80)]
    #[verifier::spinoff_prover]
    pub fn load_by_type(t: &SqlType, reader: &mut ByteReader, size: usize, tz: &Timezone) -> (res:
        Result<ColumnData, Error>)
        requires
            old(reader).wf(),
        ensures
            final(reader).wf(),
            final(reader).data == old(reader).data,
            match res {
                Ok(c) => col_dec(t@, old(reader).remaining(), size as int, tz@) == Some(
                    (c@, final(reader).pos - old(reader).pos as int),
                ),
                Err(e) => e == Error::ReadFailure && col_dec(
                    t@,
                    old(reader).remaining(),
                    size as int,
                    tz@,
                ) is None,
            },
        decreases *t,
    {
        match t {
            SqlType::Decimal(p, sc) => {
                match NoBits::from_precision(*p) {
                    Some(NoBits::N32) => {
                        match load_u32s(reader, size) {
                            Ok(v) => {
                                let ic = ColumnData::Int32(v);
                                proof {
                                    assert(ic@ is Int32);
                                }
                                Ok(ColumnData::Decimal(*p, *sc, NoBits::N32, Box::new(ic)))
                            },
                            Err(e) => Err(e),
                        }
                    },
                    Some(NoBits::N64) => {
                        match load_u64s(reader, size) {
                            Ok(v) => {
                                let ic = ColumnData::Int64(v);
                                proof {
                                    assert(ic@ is Int64);
                                }
                                Ok(ColumnData::Decimal(*p, *sc, NoBits::N64, Box::new(ic)))
                            },
                            Err(e) => Err(e),
                        }
                    },
                    None => Err(Error::ReadFailure),
                }
            },
            SqlType::Enum8(m) => {
                match reader.read_exact(size) {
                    Ok(v) => {
                        let ic = ColumnData::Int8(v);
                        proof {
                            assert(ic@ is Int8);
                        }
                        let c = ColumnData::Enum8(clone_mapping8(m), Box::new(ic));
                        proof {
                            assert(col_dec(t@, old(reader).remaining(), size as int, tz@)
                                =~~= Some(
                                (c@, reader.pos - old(reader).pos as int),
                            ));
                        }
                        Ok(c)
                    },
                    Err(e) => Err(e),
                }
            },
            SqlType::Enum16(m) => {
                match load_u16s(reader, size) {
                    Ok(v) => {
                        let ic = ColumnData::Int16(v);
                        proof {
                            assert(ic@ is Int16);
                        }
                        let c = ColumnData::Enum16(clone_mapping16(m), Box::new(ic));
                        proof {
                            assert(col_dec(t@, old(reader).remaining(), size as int, tz@)
                                =~~= Some(
                                (c@, reader.pos - old(reader).pos as int),
                            ));
                        }
                        Ok(c)
                    },
                    Err(e) => Err(e),
                }
            },
            SqlType::Nullable(inner) => {
                let flags = match reader.read_exact(size) {
                    Ok(flags) => flags,
                    Err(e) => {
                        return Err(e);
                    },
                };
                proof {
                    assert(reader.remaining() =~= old(reader).remaining().skip(size as int));
                }
                match ColumnData::load_by_type(inner, reader, size, tz) {
                    Ok(ic) => Ok(ColumnData::Nullable(Box::new(ic), flags)),
                    Err(e) => Err(e),
                }
            },
            SqlType::Array(inner) => {
                let ghost orig = old(reader).remaining();
                let offs = match load_u64s(reader, size) {
                    Ok(offs) => offs,
                    Err(e) => {
                        return Err(e);
                    },
                };
                if !check_offsets_mono(&offs) {
                    return Err(Error::ReadFailure);
                }
                let total: u64 = if size == 0 {
                    0
                } else {
                    offs[size - 1]
                };
                proof {
                    assert(offsets_total(offs@) == total as int);
                }
                if total > usize::MAX as u64 {
                    return Err(Error::ReadFailure);
                }
                proof {
                    assert(reader.remaining() =~= old(reader).remaining().skip(8 * size as int));
                }
                match ColumnData::load_by_type(inner, reader, total as usize, tz) {
                    Ok(ic) => Ok(ColumnData::Array(Box::new(ic), offs)),
                    Err(e) => Err(e),
                }
            },
            _ => load_leaf(t, reader, size, tz),
        }
    }

    /// Classifies a type descriptor and reads `size` rows of that type from
    /// the byte source: the decode-construct entry point. Fails with the
    /// classification error when the descriptor is bad, and with a read
    /// failure exactly when the stream does not hold a full column.
    pub fn load_data(reader: &mut ByteReader, descriptor: &str, size: usize, tz: &Timezone) -> (res:
        Result<ColumnData, Error>)
        requires
            old(reader).wf(),
        ensures
            final(reader).wf(),
            final(reader).data == old(reader).data,
            match res {
                Ok(c) => match spec_classify(descriptor@) {
                    Ok(tv) => col_dec(tv, old(reader).remaining(), size as int, tz@) == Some(
                        (c@, final(reader).pos - old(reader).pos as int),
                    ) && col_wf(c@) && col_type(c@) == tv && col_len(c@) == size && col_tz_is(
                        c@,
                        tz@,
                    ),
                    Err(_) => false,
                },
                Err(e) => match spec_classify(descriptor@) {
                    Ok(tv) => e == Error::ReadFailure && col_dec(
                        tv,
                        old(reader).remaining(),
                        size as int,
                        tz@,
                    ) is None,
                    Err(pe) => e == pe && *final(reader) == *old(reader),
                },
            },
    {
        match classify(descriptor) {
            Ok(t) => {
                proof {
                    lemma_col_dec_props(t@, reader.remaining(), size as int, tz@);
                }
                ColumnData::load_by_type(&t, reader, size, tz)
            },
            Err(e) => Err(e),
        }
    }
}

/// Are the offsets non-decreasing?
fn check_offsets_mono(offs: &Vec<u64>) -> (r: bool)
    ensures
        r == offsets_mono(offs@),
{
    let n = offs.len();
    let mut j: usize = 1;
    while j < n
        invariant
            1 <= j <= n || n == 0,
            n == offs@.len(),
            forall|q: int| 0 <= q < j - 1 ==> #[trigger] offs@[q] <= offs@[q + 1],
        decreases n - j,
    {
        if offs[j - 1] > offs[j] {
            proof {
                assert(!(offs@[j - 1] <= offs@[j - 1 + 1]));
            }
            return false;
        }
        j = j + 1;
    }
    true
}

} // verus!
