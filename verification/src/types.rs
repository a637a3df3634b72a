//! The canonical type model: every column type the codec supports, together
//! with the backing-integer width of decimals and the timezone tag carried by
//! date columns.

use vstd::prelude::*;

verus! {

/// Width of the backing integer of a `Decimal` column.
#[derive(Clone, Copy, Debug, PartialEq, Eq, Structural)]
pub enum NoBits {
    N32,
    N64,
}

impl NoBits {
    /// The backing width implied by a decimal precision: 1..=9 is held in
    /// 32 bits, 10..=18 in 64 bits, anything else is unsupported.
    pub open spec fn spec_from_precision(precision: u8) -> Option<NoBits> {
        if 1 <= precision && precision <= 9 {
            Some(NoBits::N32)
        } else if 10 <= precision && precision <= 18 {
            Some(NoBits::N64)
        } else {
            None
        }
    }

    pub fn from_precision(precision: u8) -> (r: Option<NoBits>)
        ensures
            r == NoBits::spec_from_precision(precision),
    {
        if 1 <= precision && precision <= 9 {
            Some(NoBits::N32)
        } else if 10 <= precision && precision <= 18 {
            Some(NoBits::N64)
        } else {
            None
        }
    }
}

/// A timezone tag, carried by `Date` and `DateTime` columns. The codec never
/// interprets it; turning day or second counts into calendar values in this
/// zone belongs to a higher layer.
#[derive(Debug, PartialEq, Eq)]
pub struct Timezone {
    pub name: String,
}

impl View for Timezone {
    type V = Seq<char>;

    open spec fn view(&self) -> Seq<char> {
        self.name@
    }
}

impl Timezone {
    pub fn new(name: String) -> (r: Timezone)
        ensures
            r@ == name@,
    {
        Timezone { name }
    }

    pub fn name(&self) -> (r: &str)
        ensures
            r@ == self@,
    {
        self.name.as_str()
    }

    /// A copy of this timezone tag.
    pub fn duplicate(&self) -> (r: Timezone)
        ensures
            r@ == self@,
    {
        Timezone { name: self.name.clone() }
    }
}

/// The canonical column type: a closed, recursively defined sum of every
/// supported primitive and composite type.
#[derive(Debug, PartialEq)]
pub enum SqlType {
    UInt8,
    UInt16,
    UInt32,
    UInt64,
    Int8,
    Int16,
    Int32,
    Int64,
    Float32,
    Float64,
    String,
    FixedString(usize),
    Date,
    DateTime,
    Ipv4,
    Ipv6,
    Uuid,
    Decimal(u8, u8),
    Nullable(Box<SqlType>),
    Array(Box<SqlType>),
    Enum8(Vec<(String, i8)>),
    Enum16(Vec<(String, i16)>),
}

/// The mathematical shape of a canonical type: `SqlType` with every vector
/// replaced by a sequence, used by all contracts.
#[verifier::ext_equal]
pub enum TypeV {
    UInt8,
    UInt16,
    UInt32,
    UInt64,
    Int8,
    Int16,
    Int32,
    Int64,
    Float32,
    Float64,
    String,
    FixedString(usize),
    Date,
    DateTime,
    Ipv4,
    Ipv6,
    Uuid,
    Decimal(u8, u8),
    Nullable(Box<TypeV>),
    Array(Box<TypeV>),
    Enum8(Seq<(Seq<char>, i8)>),
    Enum16(Seq<(Seq<char>, i16)>),
}

pub open spec fn type_view(t: SqlType) -> TypeV
    decreases t,
{
    match t {
        SqlType::UInt8 => TypeV::UInt8,
        SqlType::UInt16 => TypeV::UInt16,
        SqlType::UInt32 => TypeV::UInt32,
        SqlType::UInt64 => TypeV::UInt64,
        SqlType::Int8 => TypeV::Int8,
        SqlType::Int16 => TypeV::Int16,
        SqlType::Int32 => TypeV::Int32,
        SqlType::Int64 => TypeV::Int64,
        SqlType::Float32 => TypeV::Float32,
        SqlType::Float64 => TypeV::Float64,
        SqlType::String => TypeV::String,
        SqlType::FixedString(n) => TypeV::FixedString(n),
        SqlType::Date => TypeV::Date,
        SqlType::DateTime => TypeV::DateTime,
        SqlType::Ipv4 => TypeV::Ipv4,
        SqlType::Ipv6 => TypeV::Ipv6,
        SqlType::Uuid => TypeV::Uuid,
        SqlType::Decimal(p, s) => TypeV::Decimal(p, s),
        SqlType::Nullable(inner) => TypeV::Nullable(Box::new(type_view(*inner))),
        SqlType::Array(inner) => TypeV::Array(Box::new(type_view(*inner))),
        SqlType::Enum8(m) => TypeV::Enum8(m@.map_values(|p: (String, i8)| (p.0@, p.1))),
        SqlType::Enum16(m) => TypeV::Enum16(m@.map_values(|p: (String, i16)| (p.0@, p.1))),
    }
}

impl View for SqlType {
    type V = TypeV;

    open spec fn view(&self) -> TypeV {
        type_view(*self)
    }
}

/// The invariant of a canonical type: every decimal precision inside it maps
/// to a supported backing width, and its scale never exceeds it.
pub open spec fn type_wf(t: TypeV) -> bool
    decreases t,
{
    match t {
        TypeV::Decimal(p, s) => NoBits::spec_from_precision(p) is Some && s <= p,
        TypeV::Nullable(inner) => type_wf(*inner),
        TypeV::Array(inner) => type_wf(*inner),
        _ => true,
    }
}

} // verus!
