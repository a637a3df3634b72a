//! The in-memory column: one concrete representation per canonical type,
//! composites owning their inner column behind a box. Numeric payloads are
//! held as little-endian bit patterns of their wire width; which signed or
//! unsigned type they denote lives in the variant tag, and interpreting the
//! patterns belongs to a higher layer.

use vstd::prelude::*;

use crate::types::{NoBits, SqlType, Timezone, TypeV};

verus! {

/// One column's decoded or to-be-encoded values.
#[derive(Debug, PartialEq)]
pub enum ColumnData {
    UInt8(Vec<u8>),
    UInt16(Vec<u16>),
    UInt32(Vec<u32>),
    UInt64(Vec<u64>),
    Int8(Vec<u8>),
    Int16(Vec<u16>),
    Int32(Vec<u32>),
    Int64(Vec<u64>),
    Float32(Vec<u32>),
    Float64(Vec<u64>),
    String(Vec<Vec<u8>>),
    FixedString(usize, Vec<Vec<u8>>),
    Date(Timezone, Vec<u16>),
    DateTime(Timezone, Vec<u32>),
    Ipv4(Vec<Vec<u8>>),
    Ipv6(Vec<Vec<u8>>),
    Uuid(Vec<Vec<u8>>),
    Decimal(u8, u8, NoBits, Box<ColumnData>),
    Enum8(Vec<(String, i8)>, Box<ColumnData>),
    Enum16(Vec<(String, i16)>, Box<ColumnData>),
    Nullable(Box<ColumnData>, Vec<u8>),
    Array(Box<ColumnData>, Vec<u64>),
}

/// The mathematical shape of a column, with every vector a sequence.
#[verifier::ext_equal]
pub enum ColV {
    UInt8(Seq<u8>),
    UInt16(Seq<u16>),
    UInt32(Seq<u32>),
    UInt64(Seq<u64>),
    Int8(Seq<u8>),
    Int16(Seq<u16>),
    Int32(Seq<u32>),
    Int64(Seq<u64>),
    Float32(Seq<u32>),
    Float64(Seq<u64>),
    String(Seq<Seq<u8>>),
    FixedString(usize, Seq<Seq<u8>>),
    Date(Seq<char>, Seq<u16>),
    DateTime(Seq<char>, Seq<u32>),
    Ipv4(Seq<Seq<u8>>),
    Ipv6(Seq<Seq<u8>>),
    Uuid(Seq<Seq<u8>>),
    Decimal(u8, u8, NoBits, Box<ColV>),
    Enum8(Seq<(Seq<char>, i8)>, Box<ColV>),
    Enum16(Seq<(Seq<char>, i16)>, Box<ColV>),
    Nullable(Box<ColV>, Seq<u8>),
    Array(Box<ColV>, Seq<u64>),
}

pub open spec fn col_view(c: ColumnData) -> ColV
    decreases c,
{
    match c {
        ColumnData::UInt8(vs) => ColV::UInt8(vs@),
        ColumnData::UInt16(vs) => ColV::UInt16(vs@),
        ColumnData::UInt32(vs) => ColV::UInt32(vs@),
        ColumnData::UInt64(vs) => ColV::UInt64(vs@),
        ColumnData::Int8(vs) => ColV::Int8(vs@),
        ColumnData::Int16(vs) => ColV::Int16(vs@),
        ColumnData::Int32(vs) => ColV::Int32(vs@),
        ColumnData::Int64(vs) => ColV::Int64(vs@),
        ColumnData::Float32(vs) => ColV::Float32(vs@),
        ColumnData::Float64(vs) => ColV::Float64(vs@),
        ColumnData::String(rows) => ColV::String(rows@.map_values(|r: Vec<u8>| r@)),
        ColumnData::FixedString(k, rows) => ColV::FixedString(
            k,
            rows@.map_values(|r: Vec<u8>| r@),
        ),
        ColumnData::Date(tz, vs) => ColV::Date(tz@, vs@),
        ColumnData::DateTime(tz, vs) => ColV::DateTime(tz@, vs@),
        ColumnData::Ipv4(rows) => ColV::Ipv4(rows@.map_values(|r: Vec<u8>| r@)),
        ColumnData::Ipv6(rows) => ColV::Ipv6(rows@.map_values(|r: Vec<u8>| r@)),
        ColumnData::Uuid(rows) => ColV::Uuid(rows@.map_values(|r: Vec<u8>| r@)),
        ColumnData::Decimal(p, sc, bits, inner) => ColV::Decimal(
            p,
            sc,
            bits,
            Box::new(col_view(*inner)),
        ),
        ColumnData::Enum8(m, inner) => ColV::Enum8(
            m@.map_values(|q: (String, i8)| (q.0@, q.1)),
            Box::new(col_view(*inner)),
        ),
        ColumnData::Enum16(m, inner) => ColV::Enum16(
            m@.map_values(|q: (String, i16)| (q.0@, q.1)),
            Box::new(col_view(*inner)),
        ),
        ColumnData::Nullable(inner, nulls) => ColV::Nullable(Box::new(col_view(*inner)), nulls@),
        ColumnData::Array(inner, offsets) => ColV::Array(Box::new(col_view(*inner)), offsets@),
    }
}

impl View for ColumnData {
    type V = ColV;

    open spec fn view(&self) -> ColV {
        col_view(*self)
    }
}

/// The canonical type a column carries.
pub open spec fn col_type(c: ColV) -> TypeV
    decreases c,
{
    match c {
        ColV::UInt8(_) => TypeV::UInt8,
        ColV::UInt16(_) => TypeV::UInt16,
        ColV::UInt32(_) => TypeV::UInt32,
        ColV::UInt64(_) => TypeV::UInt64,
        ColV::Int8(_) => TypeV::Int8,
        ColV::Int16(_) => TypeV::Int16,
        ColV::Int32(_) => TypeV::Int32,
        ColV::Int64(_) => TypeV::Int64,
        ColV::Float32(_) => TypeV::Float32,
        ColV::Float64(_) => TypeV::Float64,
        ColV::String(_) => TypeV::String,
        ColV::FixedString(k, _) => TypeV::FixedString(k),
        ColV::Date(_, _) => TypeV::Date,
        ColV::DateTime(_, _) => TypeV::DateTime,
        ColV::Ipv4(_) => TypeV::Ipv4,
        ColV::Ipv6(_) => TypeV::Ipv6,
        ColV::Uuid(_) => TypeV::Uuid,
        ColV::Decimal(p, sc, _, _) => TypeV::Decimal(p, sc),
        ColV::Enum8(m, _) => TypeV::Enum8(m),
        ColV::Enum16(m, _) => TypeV::Enum16(m),
        ColV::Nullable(inner, _) => TypeV::Nullable(Box::new(col_type(*inner))),
        ColV::Array(inner, _) => TypeV::Array(Box::new(col_type(*inner))),
    }
}

/// The number of rows a column holds.
pub open spec fn col_len(c: ColV) -> int
    decreases c,
{
    match c {
        ColV::UInt8(vs) => vs.len() as int,
        ColV::UInt16(vs) => vs.len() as int,
        ColV::UInt32(vs) => vs.len() as int,
        ColV::UInt64(vs) => vs.len() as int,
        ColV::Int8(vs) => vs.len() as int,
        ColV::Int16(vs) => vs.len() as int,
        ColV::Int32(vs) => vs.len() as int,
        ColV::Int64(vs) => vs.len() as int,
        ColV::Float32(vs) => vs.len() as int,
        ColV::Float64(vs) => vs.len() as int,
        ColV::String(rows) => rows.len() as int,
        ColV::FixedString(_, rows) => rows.len() as int,
        ColV::Date(_, vs) => vs.len() as int,
        ColV::DateTime(_, vs) => vs.len() as int,
        ColV::Ipv4(rows) => rows.len() as int,
        ColV::Ipv6(rows) => rows.len() as int,
        ColV::Uuid(rows) => rows.len() as int,
        ColV::Decimal(_, _, _, inner) => col_len(*inner),
        ColV::Enum8(_, inner) => col_len(*inner),
        ColV::Enum16(_, inner) => col_len(*inner),
        ColV::Nullable(_, nulls) => nulls.len() as int,
        ColV::Array(_, offsets) => offsets.len() as int,
    }
}

/// Offsets are cumulative element counts: never decreasing.
pub open spec fn offsets_mono(offs: Seq<u64>) -> bool {
    forall|i: int| 0 <= i < offs.len() - 1 ==> #[trigger] offs[i] <= offs[i + 1]
}

/// The total element count an offsets sequence announces.
pub open spec fn offsets_total(offs: Seq<u64>) -> int {
    if offs.len() == 0 {
        0
    } else {
        offs.last() as int
    }
}

/// Well-formedness of a column: auxiliary structure agrees with the data.
/// For an array column the offsets never decrease and the last one equals
/// the inner column's length; a nullable column has one flag byte per inner
/// row; fixed-width rows have exactly their declared width; a decimal's
/// backing width matches its precision and its inner column.
pub open spec fn col_wf(c: ColV) -> bool
    decreases c,
{
    match c {
        ColV::String(rows) => forall|i: int| 0 <= i < rows.len() ==> (#[trigger] rows[i]).len()
            <= usize::MAX,
        ColV::FixedString(k, rows) => forall|i: int|
            0 <= i < rows.len() ==> (#[trigger] rows[i]).len() == k,
        ColV::Ipv4(rows) => forall|i: int| 0 <= i < rows.len() ==> (#[trigger] rows[i]).len()
            == 4,
        ColV::Ipv6(rows) => forall|i: int| 0 <= i < rows.len() ==> (#[trigger] rows[i]).len()
            == 16,
        ColV::Uuid(rows) => forall|i: int| 0 <= i < rows.len() ==> (#[trigger] rows[i]).len()
            == 16,
        ColV::Decimal(p, _sc, bits, inner) => NoBits::spec_from_precision(p) == Some(bits)
            && col_wf(*inner) && match bits {
            NoBits::N32 => *inner matches ColV::Int32(_),
            NoBits::N64 => *inner matches ColV::Int64(_),
        },
        ColV::Enum8(_, inner) => col_wf(*inner) && *inner matches ColV::Int8(_),
        ColV::Enum16(_, inner) => col_wf(*inner) && *inner matches ColV::Int16(_),
        ColV::Nullable(inner, nulls) => col_wf(*inner) && col_len(*inner) == nulls.len(),
        ColV::Array(inner, offsets) => col_wf(*inner) && offsets_mono(offsets) && offsets_total(
            offsets,
        ) == col_len(*inner) && offsets_total(offsets) <= usize::MAX,
        _ => true,
    }
}

/// Every date or datetime node of the column carries timezone `z`.
pub open spec fn col_tz_is(c: ColV, z: Seq<char>) -> bool
    decreases c,
{
    match c {
        ColV::Date(tz, _) => tz == z,
        ColV::DateTime(tz, _) => tz == z,
        ColV::Decimal(_, _, _, inner) => col_tz_is(*inner, z),
        ColV::Enum8(_, inner) => col_tz_is(*inner, z),
        ColV::Enum16(_, inner) => col_tz_is(*inner, z),
        ColV::Nullable(inner, _) => col_tz_is(*inner, z),
        ColV::Array(inner, _) => col_tz_is(*inner, z),
        _ => true,
    }
}

/// Clones an enum mapping, name for name and code for code.
pub(crate) fn clone_mapping8(m: &Vec<(String, i8)>) -> (r: Vec<(String, i8)>)
    ensures
        r@.map_values(|q: (String, i8)| (q.0@, q.1)) == m@.map_values(
            |q: (String, i8)| (q.0@, q.1),
        ),
{
    let mut out: Vec<(String, i8)> = Vec::new();
    let mut i: usize = 0;
    let n = m.len();
    while i < n
        invariant
            0 <= i <= n,
            n == m@.len(),
            out@.len() == i,
            forall|k: int| 0 <= k < i ==> #[trigger] out@[k].0@ == m@[k].0@ && out@[k].1
                == m@[k].1,
        decreases n - i,
    {
        let name = m[i].0.clone();
        let code = m[i].1;
        out.push((name, code));
        i = i + 1;
    }
    proof {
        assert(out@.map_values(|q: (String, i8)| (q.0@, q.1)) =~= m@.map_values(
            |q: (String, i8)| (q.0@, q.1),
        ));
    }
    out
}

/// Clones an enum mapping, name for name and code for code.
pub(crate) fn clone_mapping16(m: &Vec<(String, i16)>) -> (r: Vec<(String, i16)>)
    ensures
        r@.map_values(|q: (String, i16)| (q.0@, q.1)) == m@.map_values(
            |q: (String, i16)| (q.0@, q.1),
        ),
{
    let mut out: Vec<(String, i16)> = Vec::new();
    let mut i: usize = 0;
    let n = m.len();
    while i < n
        invariant
            0 <= i <= n,
            n == m@.len(),
            out@.len() == i,
            forall|k: int| 0 <= k < i ==> #[trigger] out@[k].0@ == m@[k].0@ && out@[k].1
                == m@[k].1,
        decreases n - i,
    {
        let name = m[i].0.clone();
        let code = m[i].1;
        out.push((name, code));
        i = i + 1;
    }
    proof {
        assert(out@.map_values(|q: (String, i16)| (q.0@, q.1)) =~= m@.map_values(
            |q: (String, i16)| (q.0@, q.1),
        ));
    }
    out
}

impl ColumnData {
    /// The number of rows this column holds.
    pub fn len(&self) -> (r: usize)
        ensures
            r == col_len(self@),
        decreases *self,
    {
        match self {
            ColumnData::UInt8(vs) => vs.len(),
            ColumnData::UInt16(vs) => vs.len(),
            ColumnData::UInt32(vs) => vs.len(),
            ColumnData::UInt64(vs) => vs.len(),
            ColumnData::Int8(vs) => vs.len(),
            ColumnData::Int16(vs) => vs.len(),
            ColumnData::Int32(vs) => vs.len(),
            ColumnData::Int64(vs) => vs.len(),
            ColumnData::Float32(vs) => vs.len(),
            ColumnData::Float64(vs) => vs.len(),
            ColumnData::String(rows) => rows.len(),
            ColumnData::FixedString(_, rows) => rows.len(),
            ColumnData::Date(_, vs) => vs.len(),
            ColumnData::DateTime(_, vs) => vs.len(),
            ColumnData::Ipv4(rows) => rows.len(),
            ColumnData::Ipv6(rows) => rows.len(),
            ColumnData::Uuid(rows) => rows.len(),
            ColumnData::Decimal(_, _, _, inner) => inner.len(),
            ColumnData::Enum8(_, inner) => inner.len(),
            ColumnData::Enum16(_, inner) => inner.len(),
            ColumnData::Nullable(_, nulls) => nulls.len(),
            ColumnData::Array(_, offsets) => offsets.len(),
        }
    }

    /// Builds an empty, appendable column of the given canonical type,
    /// reserving room for `capacity` rows. Always succeeds on a well-formed
    /// type.
    pub fn from_type(sql_type: &SqlType, timezone: &Timezone, capacity: usize) -> (r: Result<
        ColumnData,
        crate::Error,
    >)
        requires
            crate::types::type_wf(sql_type@),
        ensures
            match r {
                Ok(c) => col_wf(c@) && col_type(c@) == sql_type@ && col_len(c@) == 0
                    && col_tz_is(c@, timezone@),
                Err(_) => false,
            },
        decreases *sql_type,
    {
        match sql_type {
            SqlType::UInt8 => Ok(ColumnData::UInt8(Vec::with_capacity(capacity))),
            SqlType::UInt16 => Ok(ColumnData::UInt16(Vec::with_capacity(capacity))),
            SqlType::UInt32 => Ok(ColumnData::UInt32(Vec::with_capacity(capacity))),
            SqlType::UInt64 => Ok(ColumnData::UInt64(Vec::with_capacity(capacity))),
            SqlType::Int8 => Ok(ColumnData::Int8(Vec::with_capacity(capacity))),
            SqlType::Int16 => Ok(ColumnData::Int16(Vec::with_capacity(capacity))),
            SqlType::Int32 => Ok(ColumnData::Int32(Vec::with_capacity(capacity))),
            SqlType::Int64 => Ok(ColumnData::Int64(Vec::with_capacity(capacity))),
            SqlType::Float32 => Ok(ColumnData::Float32(Vec::with_capacity(capacity))),
            SqlType::Float64 => Ok(ColumnData::Float64(Vec::with_capacity(capacity))),
            SqlType::String => Ok(ColumnData::String(Vec::with_capacity(capacity))),
            SqlType::FixedString(k) => Ok(ColumnData::FixedString(*k, Vec::with_capacity(capacity))),
            SqlType::Date => Ok(ColumnData::Date(timezone.duplicate(), Vec::with_capacity(capacity))),
            SqlType::DateTime => Ok(
                ColumnData::DateTime(timezone.duplicate(), Vec::with_capacity(capacity)),
            ),
            SqlType::Ipv4 => Ok(ColumnData::Ipv4(Vec::with_capacity(capacity))),
            SqlType::Ipv6 => Ok(ColumnData::Ipv6(Vec::with_capacity(capacity))),
            SqlType::Uuid => Ok(ColumnData::Uuid(Vec::with_capacity(capacity))),
            SqlType::Decimal(p, sc) => {
                match NoBits::from_precision(*p) {
                    Some(NoBits::N32) => {
                        let ic = ColumnData::Int32(Vec::with_capacity(capacity));
                        proof {
                            assert(col_wf(ic@));
                            assert(col_tz_is(ic@, timezone@));
                            assert(col_len(ic@) == 0);
                        }
                        Ok(ColumnData::Decimal(*p, *sc, NoBits::N32, Box::new(ic)))
                    },
                    Some(NoBits::N64) => {
                        let ic = ColumnData::Int64(Vec::with_capacity(capacity));
                        proof {
                            assert(col_wf(ic@));
                            assert(col_tz_is(ic@, timezone@));
                            assert(col_len(ic@) == 0);
                        }
                        Ok(ColumnData::Decimal(*p, *sc, NoBits::N64, Box::new(ic)))
                    },
                    None => Err(crate::Error::UnsupportedType),
                }
            },
            SqlType::Nullable(inner) => {
                match ColumnData::from_type(inner, timezone, capacity) {
                    Ok(ic) => Ok(ColumnData::Nullable(Box::new(ic), Vec::new())),
                    Err(e) => Err(e),
                }
            },
            SqlType::Array(inner) => {
                match ColumnData::from_type(inner, timezone, capacity) {
                    Ok(ic) => Ok(ColumnData::Array(Box::new(ic), Vec::with_capacity(capacity))),
                    Err(e) => Err(e),
                }
            },
            SqlType::Enum8(m) => {
                let ic = ColumnData::Int8(Vec::with_capacity(capacity));
                proof {
                    assert(col_wf(ic@));
                    assert(col_tz_is(ic@, timezone@));
                    assert(col_len(ic@) == 0);
                }
                let c = ColumnData::Enum8(clone_mapping8(m), Box::new(ic));
                proof {
                    assert(col_type(c@) =~~= sql_type@);
                }
                Ok(c)
            },
            SqlType::Enum16(m) => {
                let ic = ColumnData::Int16(Vec::with_capacity(capacity));
                proof {
                    assert(col_wf(ic@));
                    assert(col_tz_is(ic@, timezone@));
                    assert(col_len(ic@) == 0);
                }
                let c = ColumnData::Enum16(clone_mapping16(m), Box::new(ic));
                proof {
                    assert(col_type(c@) =~~= sql_type@);
                }
                Ok(c)
            },
        }
    }
}

} // verus!
