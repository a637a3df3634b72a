//! Binary encode of columns: the wire bytes a column writes, as a
//! specification, and the verified writer that produces them.

use vstd::prelude::*;
use vstd::bytes::{
    spec_u16_to_le_bytes, spec_u32_to_le_bytes, spec_u64_to_le_bytes, u16_to_le_bytes,
    u32_to_le_bytes, u64_to_le_bytes,
};

use crate::column::{ColV, ColumnData};
use crate::reader::{vu_enc, write_uvarint};

verus! {

/// The bytes of a run of little-endian 16-bit values.
pub open spec fn enc_u16s(vs: Seq<u16>) -> Seq<u8>
    decreases vs.len(),
{
    if vs.len() == 0 {
        Seq::empty()
    } else {
        spec_u16_to_le_bytes(vs[0]) + enc_u16s(vs.skip(1))
    }
}

/// The bytes of a run of little-endian 32-bit values.
pub open spec fn enc_u32s(vs: Seq<u32>) -> Seq<u8>
    decreases vs.len(),
{
    if vs.len() == 0 {
        Seq::empty()
    } else {
        spec_u32_to_le_bytes(vs[0]) + enc_u32s(vs.skip(1))
    }
}

/// The bytes of a run of little-endian 64-bit values.
pub open spec fn enc_u64s(vs: Seq<u64>) -> Seq<u8>
    decreases vs.len(),
{
    if vs.len() == 0 {
        Seq::empty()
    } else {
        spec_u64_to_le_bytes(vs[0]) + enc_u64s(vs.skip(1))
    }
}

/// Rows laid end to end, with no framing.
pub open spec fn cat_rows(rows: Seq<Seq<u8>>) -> Seq<u8>
    decreases rows.len(),
{
    if rows.len() == 0 {
        Seq::empty()
    } else {
        rows[0] + cat_rows(rows.skip(1))
    }
}

/// Rows each preceded by a varuint byte count.
pub open spec fn enc_strs(rows: Seq<Seq<u8>>) -> Seq<u8>
    decreases rows.len(),
{
    if rows.len() == 0 {
        Seq::empty()
    } else {
        vu_enc(rows[0].len() as u64) + rows[0] + enc_strs(rows.skip(1))
    }
}

/// The wire encoding of a column: fixed-width values little-endian with no
/// framing; strings length-prefixed; a nullable column one flag byte per row
/// then its inner payload; an array its cumulative offsets then the
/// flattened inner payload; decimal and enum columns exactly their backing
/// integer column.
pub open spec fn col_enc(c: ColV) -> Seq<u8>
    decreases c,
{
    match c {
        ColV::UInt8(vs) => vs,
        ColV::Int8(vs) => vs,
        ColV::UInt16(vs) => enc_u16s(vs),
        ColV::Int16(vs) => enc_u16s(vs),
        ColV::UInt32(vs) => enc_u32s(vs),
        ColV::Int32(vs) => enc_u32s(vs),
        ColV::UInt64(vs) => enc_u64s(vs),
        ColV::Int64(vs) => enc_u64s(vs),
        ColV::Float32(vs) => enc_u32s(vs),
        ColV::Float64(vs) => enc_u64s(vs),
        ColV::String(rows) => enc_strs(rows),
        ColV::FixedString(_k, rows) => cat_rows(rows),
        ColV::Date(_tz, vs) => enc_u16s(vs),
        ColV::DateTime(_tz, vs) => enc_u32s(vs),
        ColV::Ipv4(rows) => cat_rows(rows),
        ColV::Ipv6(rows) => cat_rows(rows),
        ColV::Uuid(rows) => cat_rows(rows),
        ColV::Decimal(_p, _sc, _bits, inner) => col_enc(*inner),
        ColV::Enum8(_m, inner) => col_enc(*inner),
        ColV::Enum16(_m, inner) => col_enc(*inner),
        ColV::Nullable(inner, nulls) => nulls + col_enc(*inner),
        ColV::Array(inner, offsets) => enc_u64s(offsets) + col_enc(*inner),
    }
}

pub proof fn lemma_enc_u16s_append(a: Seq<u16>, b: Seq<u16>)
    ensures
        enc_u16s(a + b) == enc_u16s(a) + enc_u16s(b),
    decreases a.len(),
{
    if a.len() == 0 {
        assert(a + b =~= b);
        assert(enc_u16s(a) + enc_u16s(b) =~= enc_u16s(b));
    } else {
        assert((a + b).skip(1) =~= a.skip(1) + b);
        lemma_enc_u16s_append(a.skip(1), b);
        assert(enc_u16s(a + b) =~= enc_u16s(a) + enc_u16s(b));
    }
}

pub proof fn lemma_enc_u32s_append(a: Seq<u32>, b: Seq<u32>)
    ensures
        enc_u32s(a + b) == enc_u32s(a) + enc_u32s(b),
    decreases a.len(),
{
    if a.len() == 0 {
        assert(a + b =~= b);
        assert(enc_u32s(a) + enc_u32s(b) =~= enc_u32s(b));
    } else {
        assert((a + b).skip(1) =~= a.skip(1) + b);
        lemma_enc_u32s_append(a.skip(1), b);
        assert(enc_u32s(a + b) =~= enc_u32s(a) + enc_u32s(b));
    }
}

pub proof fn lemma_enc_u64s_append(a: Seq<u64>, b: Seq<u64>)
    ensures
        enc_u64s(a + b) == enc_u64s(a) + enc_u64s(b),
    decreases a.len(),
{
    if a.len() == 0 {
        assert(a + b =~= b);
        assert(enc_u64s(a) + enc_u64s(b) =~= enc_u64s(b));
    } else {
        assert((a + b).skip(1) =~= a.skip(1) + b);
        lemma_enc_u64s_append(a.skip(1), b);
        assert(enc_u64s(a + b) =~= enc_u64s(a) + enc_u64s(b));
    }
}

pub proof fn lemma_cat_rows_append(a: Seq<Seq<u8>>, b: Seq<Seq<u8>>)
    ensures
        cat_rows(a + b) == cat_rows(a) + cat_rows(b),
    decreases a.len(),
{
    if a.len() == 0 {
        assert(a + b =~= b);
        assert(cat_rows(a) + cat_rows(b) =~= cat_rows(b));
    } else {
        assert((a + b).skip(1) =~= a.skip(1) + b);
        lemma_cat_rows_append(a.skip(1), b);
        assert(cat_rows(a + b) =~= cat_rows(a) + cat_rows(b));
    }
}

pub proof fn lemma_enc_strs_append(a: Seq<Seq<u8>>, b: Seq<Seq<u8>>)
    ensures
        enc_strs(a + b) == enc_strs(a) + enc_strs(b),
    decreases a.len(),
{
    if a.len() == 0 {
        assert(a + b =~= b);
        assert(enc_strs(a) + enc_strs(b) =~= enc_strs(b));
    } else {
        assert((a + b).skip(1) =~= a.skip(1) + b);
        lemma_enc_strs_append(a.skip(1), b);
        assert(enc_strs(a + b) =~= enc_strs(a) + enc_strs(b));
    }
}

/// Appends a copy of `src` to `out`.
fn push_bytes(out: &mut Vec<u8>, src: &Vec<u8>)
    ensures
        final(out)@ == old(out)@ + src@,
{
    let n = src.len();
    let mut i: usize = 0;
    while i < n
        invariant
            0 <= i <= n,
            n == src@.len(),
            out@ == old(out)@ + src@.take(i as int),
        decreases n - i,
    {
        out.push(src[i]);
        proof {
            assert(old(out)@ + src@.take(i + 1) =~= (old(out)@ + src@.take(i as int)).push(
                src@[i as int],
            ));
        }
        i = i + 1;
    }
    proof {
        assert(src@.take(n as int) =~= src@);
    }
}

impl ColumnData {
    /// Writes this column's rows to `out` in wire order.
    pub fn encode(&self, out: &mut Vec<u8>)
        ensures
            final(out)@ == old(out)@ + col_enc(self@),
        decreases *self,
    {
        match self {
            ColumnData::UInt8(vs) => {
                push_bytes(out, vs);
            },
            ColumnData::Int8(vs) => {
                push_bytes(out, vs);
            },
            ColumnData::UInt16(vs) => {
                encode_u16s(out, vs);
            },
            ColumnData::Int16(vs) => {
                encode_u16s(out, vs);
            },
            ColumnData::UInt32(vs) => {
                encode_u32s(out, vs);
            },
            ColumnData::Int32(vs) => {
                encode_u32s(out, vs);
            },
            ColumnData::UInt64(vs) => {
                encode_u64s(out, vs);
            },
            ColumnData::Int64(vs) => {
                encode_u64s(out, vs);
            },
            ColumnData::Float32(vs) => {
                encode_u32s(out, vs);
            },
            ColumnData::Float64(vs) => {
                encode_u64s(out, vs);
            },
            ColumnData::String(rows) => {
                encode_strs(out, rows);
                proof {
                    assert(col_enc(self@) == enc_strs(rows@.map_values(|r: Vec<u8>| r@)));
                }
            },
            ColumnData::FixedString(_k, rows) => {
                encode_cat_rows(out, rows);
                proof {
                    assert(col_enc(self@) == cat_rows(rows@.map_values(|r: Vec<u8>| r@)));
                }
            },
            ColumnData::Date(_tz, vs) => {
                encode_u16s(out, vs);
            },
            ColumnData::DateTime(_tz, vs) => {
                encode_u32s(out, vs);
            },
            ColumnData::Ipv4(rows) => {
                encode_cat_rows(out, rows);
                proof {
                    assert(col_enc(self@) == cat_rows(rows@.map_values(|r: Vec<u8>| r@)));
                }
            },
            ColumnData::Ipv6(rows) => {
                encode_cat_rows(out, rows);
                proof {
                    assert(col_enc(self@) == cat_rows(rows@.map_values(|r: Vec<u8>| r@)));
                }
            },
            ColumnData::Uuid(rows) => {
                encode_cat_rows(out, rows);
                proof {
                    assert(col_enc(self@) == cat_rows(rows@.map_values(|r: Vec<u8>| r@)));
                }
            },
            ColumnData::Decimal(_p, _sc, _bits, inner) => {
                inner.encode(out);
            },
            ColumnData::Enum8(_m, inner) => {
                inner.encode(out);
            },
            ColumnData::Enum16(_m, inner) => {
                inner.encode(out);
            },
            ColumnData::Nullable(inner, nulls) => {
                push_bytes(out, nulls);
                let ghost mid = out@;
                inner.encode(out);
                proof {
                    assert(out@ =~= old(out)@ + (nulls@ + col_enc(inner@)));
                }
            },
            ColumnData::Array(inner, offsets) => {
                encode_u64s(out, offsets);
                let ghost mid = out@;
                inner.encode(out);
                proof {
                    assert(out@ =~= old(out)@ + (enc_u64s(offsets@) + col_enc(inner@)));
                }
            },
        }
    }
}

fn encode_u16s(out: &mut Vec<u8>, vs: &Vec<u16>)
    ensures
        final(out)@ == old(out)@ + enc_u16s(vs@),
{
    let n = vs.len();
    let mut i: usize = 0;
    while i < n
        invariant
            0 <= i <= n,
            n == vs@.len(),
            out@ == old(out)@ + enc_u16s(vs@.take(i as int)),
        decreases n - i,
    {
        let mut b = u16_to_le_bytes(vs[i]);
        out.append(&mut b);
        proof {
            assert(vs@.take(i + 1) =~= vs@.take(i as int) + seq![vs@[i as int]]);
            lemma_enc_u16s_append(vs@.take(i as int), seq![vs@[i as int]]);
            assert(seq![vs@[i as int]].skip(1) =~= Seq::<u16>::empty());
            assert(enc_u16s(Seq::<u16>::empty()) =~= Seq::<u8>::empty());
            assert(enc_u16s(seq![vs@[i as int]]) =~= spec_u16_to_le_bytes(vs@[i as int]));
            assert(out@ =~= old(out)@ + enc_u16s(vs@.take(i + 1)));
        }
        i = i + 1;
    }
    proof {
        assert(vs@.take(n as int) =~= vs@);
    }
}

fn encode_u32s(out: &mut Vec<u8>, vs: &Vec<u32>)
    ensures
        final(out)@ == old(out)@ + enc_u32s(vs@),
{
    let n = vs.len();
    let mut i: usize = 0;
    while i < n
        invariant
            0 <= i <= n,
            n == vs@.len(),
            out@ == old(out)@ + enc_u32s(vs@.take(i as int)),
        decreases n - i,
    {
        let mut b = u32_to_le_bytes(vs[i]);
        out.append(&mut b);
        proof {
            assert(vs@.take(i + 1) =~= vs@.take(i as int) + seq![vs@[i as int]]);
            lemma_enc_u32s_append(vs@.take(i as int), seq![vs@[i as int]]);
            assert(seq![vs@[i as int]].skip(1) =~= Seq::<u32>::empty());
            assert(enc_u32s(Seq::<u32>::empty()) =~= Seq::<u8>::empty());
            assert(enc_u32s(seq![vs@[i as int]]) =~= spec_u32_to_le_bytes(vs@[i as int]));
            assert(out@ =~= old(out)@ + enc_u32s(vs@.take(i + 1)));
        }
        i = i + 1;
    }
    proof {
        assert(vs@.take(n as int) =~= vs@);
    }
}

fn encode_u64s(out: &mut Vec<u8>, vs: &Vec<u64>)
    ensures
        final(out)@ == old(out)@ + enc_u64s(vs@),
{
    let n = vs.len();
    let mut i: usize = 0;
    while i < n
        invariant
            0 <= i <= n,
            n == vs@.len(),
            out@ == old(out)@ + enc_u64s(vs@.take(i as int)),
        decreases n - i,
    {
        let mut b = u64_to_le_bytes(vs[i]);
        out.append(&mut b);
        proof {
            assert(vs@.take(i + 1) =~= vs@.take(i as int) + seq![vs@[i as int]]);
            lemma_enc_u64s_append(vs@.take(i as int), seq![vs@[i as int]]);
            assert(seq![vs@[i as int]].skip(1) =~= Seq::<u64>::empty());
            assert(enc_u64s(Seq::<u64>::empty()) =~= Seq::<u8>::empty());
            assert(enc_u64s(seq![vs@[i as int]]) =~= spec_u64_to_le_bytes(vs@[i as int]));
            assert(out@ =~= old(out)@ + enc_u64s(vs@.take(i + 1)));
        }
        i = i + 1;
    }
    proof {
        assert(vs@.take(n as int) =~= vs@);
    }
}

fn encode_cat_rows(out: &mut Vec<u8>, rows: &Vec<Vec<u8>>)
    ensures
        final(out)@ == old(out)@ + cat_rows(rows@.map_values(|r: Vec<u8>| r@)),
{
    let ghost rv = rows@.map_values(|r: Vec<u8>| r@);
    let n = rows.len();
    let mut i: usize = 0;
    while i < n
        invariant
            0 <= i <= n,
            n == rows@.len(),
            rv == rows@.map_values(|r: Vec<u8>| r@),
            out@ == old(out)@ + cat_rows(rv.take(i as int)),
        decreases n - i,
    {
        push_bytes(out, &rows[i]);
        proof {
            assert(rv.take(i + 1) =~= rv.take(i as int) + seq![rv[i as int]]);
            lemma_cat_rows_append(rv.take(i as int), seq![rv[i as int]]);
            assert(seq![rv[i as int]].skip(1) =~= Seq::<Seq<u8>>::empty());
            assert(cat_rows(Seq::<Seq<u8>>::empty()) =~= Seq::<u8>::empty());
            assert(cat_rows(seq![rv[i as int]]) =~= rv[i as int]);
            assert(out@ =~= old(out)@ + cat_rows(rv.take(i + 1)));
        }
        i = i + 1;
    }
    proof {
        assert(rv.take(n as int) =~= rv);
    }
}

fn encode_strs(out: &mut Vec<u8>, rows: &Vec<Vec<u8>>)
    ensures
        final(out)@ == old(out)@ + enc_strs(rows@.map_values(|r: Vec<u8>| r@)),
{
    let ghost rv = rows@.map_values(|r: Vec<u8>| r@);
    let n = rows.len();
    let mut i: usize = 0;
    while i < n
        invariant
            0 <= i <= n,
            n == rows@.len(),
            rv == rows@.map_values(|r: Vec<u8>| r@),
            out@ == old(out)@ + enc_strs(rv.take(i as int)),
        decreases n - i,
    {
        let row = &rows[i];
        write_uvarint(out, row.len() as u64);
        push_bytes(out, row);
        proof {
            assert(rv.take(i + 1) =~= rv.take(i as int) + seq![rv[i as int]]);
            lemma_enc_strs_append(rv.take(i as int), seq![rv[i as int]]);
            assert(seq![rv[i as int]].skip(1) =~= Seq::<Seq<u8>>::empty());
            assert(enc_strs(Seq::<Seq<u8>>::empty()) =~= Seq::<u8>::empty());
            assert(enc_strs(seq![rv[i as int]]) =~= vu_enc(rv[i as int].len() as u64) + rv[
                i as int
            ]);
            assert(out@ =~= old(out)@ + enc_strs(rv.take(i + 1)));
        }
        i = i + 1;
    }
    proof {
        assert(rv.take(n as int) =~= rv);
    }
}

} // verus!
