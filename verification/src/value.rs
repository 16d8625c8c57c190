//! The tagged value: one primitive payload stored under its kind.

use vstd::prelude::*;
use vstd::string::*;

verus! {

/// The primitive kinds a tagged value can hold.
#[derive(Clone, Copy, Debug, PartialEq, Eq, Structural)]
pub enum Kind {
    Int8,
    Int16,
    Int32,
    Int64,
    UInt8,
    UInt16,
    UInt32,
    UInt64,
    Float32,
    Float64,
    Bool,
    Str,
}

/// A tagged value. The two floating-point kinds carry the IEEE 754 bit
/// pattern of their payload, so that equality of values is equality of bits.
#[derive(Debug, PartialEq, Eq)]
pub enum Value {
    I8(i8),
    I16(i16),
    I32(i32),
    I64(i64),
    U8(u8),
    U16(u16),
    U32(u32),
    U64(u64),
    F32(u32),
    F64(u64),
    Bool(bool),
    Str(String),
}

/// The mathematical content of a [`Value`]: its kind and its payload.
pub ghost enum Payload {
    Int8(i8),
    Int16(i16),
    Int32(i32),
    Int64(i64),
    UInt8(u8),
    UInt16(u16),
    UInt32(u32),
    UInt64(u64),
    Float32(u32),
    Float64(u64),
    Bool(bool),
    Str(Seq<char>),
}

impl Payload {
    /// The kind under which the payload is stored.
    pub open spec fn kind(self) -> Kind {
        match self {
            Payload::Int8(_) => Kind::Int8,
            Payload::Int16(_) => Kind::Int16,
            Payload::Int32(_) => Kind::Int32,
            Payload::Int64(_) => Kind::Int64,
            Payload::UInt8(_) => Kind::UInt8,
            Payload::UInt16(_) => Kind::UInt16,
            Payload::UInt32(_) => Kind::UInt32,
            Payload::UInt64(_) => Kind::UInt64,
            Payload::Float32(_) => Kind::Float32,
            Payload::Float64(_) => Kind::Float64,
            Payload::Bool(_) => Kind::Bool,
            Payload::Str(_) => Kind::Str,
        }
    }
}

/// The all-zero, empty payload of a kind.
pub open spec fn zero_of(kind: Kind) -> Payload {
    match kind {
        Kind::Int8 => Payload::Int8(0),
        Kind::Int16 => Payload::Int16(0),
        Kind::Int32 => Payload::Int32(0),
        Kind::Int64 => Payload::Int64(0),
        Kind::UInt8 => Payload::UInt8(0),
        Kind::UInt16 => Payload::UInt16(0),
        Kind::UInt32 => Payload::UInt32(0),
        Kind::UInt64 => Payload::UInt64(0),
        Kind::Float32 => Payload::Float32(0),
        Kind::Float64 => Payload::Float64(0),
        Kind::Bool => Payload::Bool(false),
        Kind::Str => Payload::Str(Seq::empty()),
    }
}

/// The decimal text of an integer, as the standard library writes it.
pub uninterp spec fn integer_text(v: i128) -> Seq<char>;

/// `ToString::to_string` of the standard library on an `i128`: the result is
/// the text of the number, which depends on the number alone. Nothing more is
/// claimed of it than that it has a name.
#[verifier::external_body]
fn decimal(v: i128) -> (r: String)
    ensures
        r@ == integer_text(v),
{
    v.to_string()
}

/// The text of a payload: the decimal text of an integer, `true` or `false`
/// for a boolean, a string itself. A floating-point payload, held as its bit
/// pattern, has no text here.
pub open spec fn payload_text(p: Payload) -> Option<Seq<char>> {
    match p {
        Payload::Int8(v) => Some(integer_text(v as i128)),
        Payload::Int16(v) => Some(integer_text(v as i128)),
        Payload::Int32(v) => Some(integer_text(v as i128)),
        Payload::Int64(v) => Some(integer_text(v as i128)),
        Payload::UInt8(v) => Some(integer_text(v as i128)),
        Payload::UInt16(v) => Some(integer_text(v as i128)),
        Payload::UInt32(v) => Some(integer_text(v as i128)),
        Payload::UInt64(v) => Some(integer_text(v as i128)),
        Payload::Float32(_) => None,
        Payload::Float64(_) => None,
        Payload::Bool(b) => Some(
            if b {
                "true"@
            } else {
                "false"@
            },
        ),
        Payload::Str(s) => Some(s),
    }
}

impl View for Value {
    type V = Payload;

    open spec fn view(&self) -> Payload {
        match self {
            Value::I8(v) => Payload::Int8(*v),
            Value::I16(v) => Payload::Int16(*v),
            Value::I32(v) => Payload::Int32(*v),
            Value::I64(v) => Payload::Int64(*v),
            Value::U8(v) => Payload::UInt8(*v),
            Value::U16(v) => Payload::UInt16(*v),
            Value::U32(v) => Payload::UInt32(*v),
            Value::U64(v) => Payload::UInt64(*v),
            Value::F32(v) => Payload::Float32(*v),
            Value::F64(v) => Payload::Float64(*v),
            Value::Bool(v) => Payload::Bool(*v),
            Value::Str(s) => Payload::Str(s@),
        }
    }
}

impl Clone for Value {
    fn clone(&self) -> (r: Value)
        ensures
            r@ == self@,
    {
        match self {
            Value::I8(v) => Value::I8(*v),
            Value::I16(v) => Value::I16(*v),
            Value::I32(v) => Value::I32(*v),
            Value::I64(v) => Value::I64(*v),
            Value::U8(v) => Value::U8(*v),
            Value::U16(v) => Value::U16(*v),
            Value::U32(v) => Value::U32(*v),
            Value::U64(v) => Value::U64(*v),
            Value::F32(v) => Value::F32(*v),
            Value::F64(v) => Value::F64(*v),
            Value::Bool(v) => Value::Bool(*v),
            Value::Str(s) => Value::Str(s.clone()),
        }
    }
}

impl Value {
    /// The kind under which this value was constructed.
    pub fn kind(&self) -> (k: Kind)
        ensures
            k == self@.kind(),
    {
        match self {
            Value::I8(_) => Kind::Int8,
            Value::I16(_) => Kind::Int16,
            Value::I32(_) => Kind::Int32,
            Value::I64(_) => Kind::Int64,
            Value::U8(_) => Kind::UInt8,
            Value::U16(_) => Kind::UInt16,
            Value::U32(_) => Kind::UInt32,
            Value::U64(_) => Kind::UInt64,
            Value::F32(_) => Kind::Float32,
            Value::F64(_) => Kind::Float64,
            Value::Bool(_) => Kind::Bool,
            Value::Str(_) => Kind::Str,
        }
    }

    /// The all-zero, empty value of a kind.
    pub fn zero(kind: Kind) -> (v: Value)
        ensures
            v@ == zero_of(kind),
    {
        match kind {
            Kind::Int8 => Value::I8(0),
            Kind::Int16 => Value::I16(0),
            Kind::Int32 => Value::I32(0),
            Kind::Int64 => Value::I64(0),
            Kind::UInt8 => Value::U8(0),
            Kind::UInt16 => Value::U16(0),
            Kind::UInt32 => Value::U32(0),
            Kind::UInt64 => Value::U64(0),
            Kind::Float32 => Value::F32(0),
            Kind::Float64 => Value::F64(0),
            Kind::Bool => Value::Bool(false),
            Kind::Str => Value::Str(String::new()),
        }
    }

    /// Extraction by a kind given at run time: a copy of the value when it is
    /// stored under `kind`, nothing when it is stored under any other kind.
    pub fn extract(&self, kind: Kind) -> (r: Option<Value>)
        ensures
            r.is_some() == (self@.kind() == kind),
            r.is_some() ==> r.unwrap()@ == self@,
    {
        if same_kind(self.kind(), kind) {
            Some(self.clone())
        } else {
            None
        }
    }

    /// The text of the value, where it has one: every kind but the
    /// floating-point kinds has.
    pub fn text(&self) -> (r: Option<String>)
        ensures
            r.is_some() == payload_text(self@).is_some(),
            r.is_some() ==> r.unwrap()@ == payload_text(self@).unwrap(),
    {
        match self {
            Value::I8(v) => Some(decimal(*v as i128)),
            Value::I16(v) => Some(decimal(*v as i128)),
            Value::I32(v) => Some(decimal(*v as i128)),
            Value::I64(v) => Some(decimal(*v as i128)),
            Value::U8(v) => Some(decimal(*v as i128)),
            Value::U16(v) => Some(decimal(*v as i128)),
            Value::U32(v) => Some(decimal(*v as i128)),
            Value::U64(v) => Some(decimal(*v as i128)),
            Value::F32(_) => None,
            Value::F64(_) => None,
            Value::Bool(v) => Some(
                if *v {
                    "true".to_owned()
                } else {
                    "false".to_owned()
                },
            ),
            Value::Str(s) => Some(s.clone()),
        }
    }

    /// The payload if the value is an `Int8`, nothing otherwise.
    pub fn as_i8(&self) -> (r: Option<i8>)
        ensures
            r == (match self@ {
                Payload::Int8(v) => Some(v),
                _ => None,
            }),
    {
        match self {
            Value::I8(v) => Some(*v),
            _ => None,
        }
    }

    /// The payload if the value is an `Int16`, nothing otherwise.
    pub fn as_i16(&self) -> (r: Option<i16>)
        ensures
            r == (match self@ {
                Payload::Int16(v) => Some(v),
                _ => None,
            }),
    {
        match self {
            Value::I16(v) => Some(*v),
            _ => None,
        }
    }

    /// The payload if the value is an `Int32`, nothing otherwise.
    pub fn as_i32(&self) -> (r: Option<i32>)
        ensures
            r == (match self@ {
                Payload::Int32(v) => Some(v),
                _ => None,
            }),
    {
        match self {
            Value::I32(v) => Some(*v),
            _ => None,
        }
    }

    /// The payload if the value is an `Int64`, nothing otherwise.
    pub fn as_i64(&self) -> (r: Option<i64>)
        ensures
            r == (match self@ {
                Payload::Int64(v) => Some(v),
                _ => None,
            }),
    {
        match self {
            Value::I64(v) => Some(*v),
            _ => None,
        }
    }

    /// The payload if the value is a `UInt8`, nothing otherwise.
    pub fn as_u8(&self) -> (r: Option<u8>)
        ensures
            r == (match self@ {
                Payload::UInt8(v) => Some(v),
                _ => None,
            }),
    {
        match self {
            Value::U8(v) => Some(*v),
            _ => None,
        }
    }

    /// The payload if the value is a `UInt16`, nothing otherwise.
    pub fn as_u16(&self) -> (r: Option<u16>)
        ensures
            r == (match self@ {
                Payload::UInt16(v) => Some(v),
                _ => None,
            }),
    {
        match self {
            Value::U16(v) => Some(*v),
            _ => None,
        }
    }

    /// The payload if the value is a `UInt32`, nothing otherwise.
    pub fn as_u32(&self) -> (r: Option<u32>)
        ensures
            r == (match self@ {
                Payload::UInt32(v) => Some(v),
                _ => None,
            }),
    {
        match self {
            Value::U32(v) => Some(*v),
            _ => None,
        }
    }

    /// The payload if the value is a `UInt64`, nothing otherwise.
    pub fn as_u64(&self) -> (r: Option<u64>)
        ensures
            r == (match self@ {
                Payload::UInt64(v) => Some(v),
                _ => None,
            }),
    {
        match self {
            Value::U64(v) => Some(*v),
            _ => None,
        }
    }

    /// The bit pattern of the payload if the value is a `Float32`, nothing
    /// otherwise.
    pub fn as_f32_bits(&self) -> (r: Option<u32>)
        ensures
            r == (match self@ {
                Payload::Float32(v) => Some(v),
                _ => None,
            }),
    {
        match self {
            Value::F32(v) => Some(*v),
            _ => None,
        }
    }

    /// The bit pattern of the payload if the value is a `Float64`, nothing
    /// otherwise.
    pub fn as_f64_bits(&self) -> (r: Option<u64>)
        ensures
            r == (match self@ {
                Payload::Float64(v) => Some(v),
                _ => None,
            }),
    {
        match self {
            Value::F64(v) => Some(*v),
            _ => None,
        }
    }

    /// The payload if the value is a `Bool`, nothing otherwise.
    pub fn as_bool(&self) -> (r: Option<bool>)
        ensures
            r == (match self@ {
                Payload::Bool(v) => Some(v),
                _ => None,
            }),
    {
        match self {
            Value::Bool(v) => Some(*v),
            _ => None,
        }
    }

    /// A copy of the payload if the value is a `Str`, nothing otherwise.
    pub fn as_string(&self) -> (r: Option<String>)
        ensures
            match self@ {
                Payload::Str(s) => r.is_some() && r.unwrap()@ == s,
                _ => r.is_none(),
            },
    {
        match self {
            Value::Str(s) => Some(s.clone()),
            _ => None,
        }
    }
}

/// Whether two kinds are the same kind.
pub fn same_kind(a: Kind, b: Kind) -> (r: bool)
    ensures
        r == (a == b),
{
    a == b
}

} // verus!
