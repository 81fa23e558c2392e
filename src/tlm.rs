use vstd::arithmetic::div_mod::*;
use vstd::arithmetic::power2::*;
use vstd::prelude::*;

use crate::field::{
    raw_of, spec_floating_bits, FieldError, FloatingField, FloatingValue, GenericFloatingField,
    GenericIntegralField, IntegralField, IntegralType, IntegralValue,
};

verus! {

/// Identifies a telemetry in the database.
#[derive(Debug, Clone)]
pub struct Metadata {
    pub component_name: String,
    pub telemetry_name: String,
    pub tlm_id: u8,
    pub is_restricted: bool,
}

/// Maps integer values to labels, with a label for every other value.
#[derive(Debug, Clone)]
pub struct Status {
    map: Vec<(i64, String)>,
    default_label: String,
}

/// The label of `v`: that of the last entry with key `v`, else `default`.
pub open spec fn status_label(map: Seq<(i64, String)>, v: i64, default: Seq<char>) -> Seq<char>
    decreases map.len(),
{
    if map.len() == 0 {
        default
    } else if map.last().0 == v {
        map.last().1@
    } else {
        status_label(map.drop_last(), v, default)
    }
}

impl Status {
    pub closed spec fn spec_map(&self) -> Seq<(i64, String)> {
        self.map@
    }

    pub closed spec fn spec_default(&self) -> Seq<char> {
        self.default_label@
    }

    /// A status table; where a key occurs twice the later entry counts.
    pub fn new(map: Vec<(i64, String)>, default_label: String) -> (r: Status)
        ensures
            r.spec_map() == map@,
            r.spec_default() == default_label@,
    {
        Status { map, default_label }
    }

    /// The label of `value`.
    pub fn convert(&self, value: i64) -> (r: String)
        ensures
            r@ == status_label(self.spec_map(), value, self.spec_default()),
    {
        let mut i: usize = self.map.len();
        assert(self.map@.take(i as int) =~= self.map@);
        while i > 0
            invariant
                i <= self.map@.len(),
                status_label(self.map@, value, self.default_label@) == status_label(
                    self.map@.take(i as int),
                    value,
                    self.default_label@,
                ),
            decreases i,
        {
            proof {
                let t = self.map@.take(i as int);
                assert(t.drop_last() =~= self.map@.take(i - 1));
                assert(t.last() == self.map@[i - 1]);
            }
            if self.map[i - 1].0 == value {
                return self.map[i - 1].1.clone();
            }
            i = i - 1;
        }
        proof {
            assert(self.map@.take(0) =~= Seq::<(i64, String)>::empty());
        }
        self.default_label.clone()
    }
}

/// How an integer field's value is converted.
#[derive(Debug, Clone)]
pub enum IntegralConversion {
    Unconverted,
    Status(Status),
    /// Through the field's polynomial, which is applied outside this
    /// library on floating-point values.
    Polynomial,
}

/// A field value as read and converted.
#[derive(Debug, Clone)]
pub enum FieldValue {
    Integer(i64),
    /// A status label.
    Constant(String),
    /// An integer still to go through the field's polynomial.
    PolynomialOfIntegral(IntegralValue),
    /// A floating value (bit pattern), still to go through the field's
    /// polynomial where it has one.
    Floating(FloatingValue),
}

/// The `n` low bytes of `v`, most significant first.
pub open spec fn be_bytes_of(v: nat, n: nat) -> Seq<u8> {
    Seq::new(n, |i: int| ((v / pow2((8 * (n - 1 - i)) as nat)) % 256) as u8)
}

/// The big-endian bytes of `raw` over `n` bytes.
fn be_bytes(raw: u64, n: usize) -> (r: Vec<u8>)
    requires
        n <= 8,
    ensures
        r@ == be_bytes_of(raw as nat, n as nat),
{
    let mut out: Vec<u8> = Vec::new();
    let mut i: usize = 0;
    while i < n
        invariant
            i <= n <= 8,
            out@.len() == i,
            forall|j: int| 0 <= j < i ==> #[trigger] out@[j] == ((raw as nat / pow2((8 * (n - 1 - j)) as nat))
                % 256) as u8,
        decreases n - i,
    {
        let shift: u64 = (8 * (n - 1 - i)) as u64;
        let byte: u8 = ((raw >> shift) & 0xFF) as u8;
        proof {
            vstd::bits::lemma_u64_shr_is_div(raw, shift);
            vstd::bits::lemma_u64_low_bits_mask_is_mod(raw >> shift, 8);
            lemma2_to64();
            assert(vstd::bits::low_bits_mask(8) == 0xFF) by {
                vstd::bits::lemma_low_bits_mask_values();
            }
        }
        out.push(byte);
        i = i + 1;
    }
    assert(out@ =~= be_bytes_of(raw as nat, n as nat));
    out
}

/// The big-endian bytes of an integer in its own width.
pub fn integral_to_bytes(value: IntegralValue) -> (r: Vec<u8>)
    ensures
        r@ == be_bytes_of(raw_of(value.spec_int()) as nat, value.spec_type().spec_bits() / 8),
{
    let v = value.value();
    proof {
        lemma2_to64();
        lemma2_to64_rest();
    }
    let raw: u64 = if v >= 0 {
        v as u64
    } else {
        (v + 18446744073709551616i128) as u64
    };
    let n = value_type(value).bits();
    proof {
        lemma_pow2_pos(64);
        if v >= 0 {
            lemma_small_mod(v as nat, pow2(64));
        } else {
            lemma_mod_add_multiples_vanish(v as int, pow2(64) as int);
            lemma_small_mod((v + 18446744073709551616) as nat, pow2(64));
        }
    }
    be_bytes(raw, n / 8)
}

fn value_type(value: IntegralValue) -> (r: IntegralType)
    ensures
        r == value.spec_type(),
{
    match value {
        IntegralValue::I8(_) => IntegralType::I8,
        IntegralValue::I16(_) => IntegralType::I16,
        IntegralValue::I32(_) => IntegralType::I32,
        IntegralValue::I64(_) => IntegralType::I64,
        IntegralValue::U8(_) => IntegralType::U8,
        IntegralValue::U16(_) => IntegralType::U16,
        IntegralValue::U32(_) => IntegralType::U32,
        IntegralValue::U64(_) => IntegralType::U64,
    }
}

/// An integer field of a telemetry, with its conversion.
#[derive(Debug, Clone)]
pub struct IntegralFieldSchema {
    pub converter: IntegralConversion,
    pub field: GenericIntegralField,
}

pub open spec fn fits_i64(v: int) -> bool {
    i64::MIN <= v <= i64::MAX
}

/// Reading `s` from `b` succeeds: the field fits, and where the value is
/// needed as an `i64` it is one.
pub open spec fn integral_read_ok(s: IntegralFieldSchema, b: Seq<u8>) -> bool {
    &&& s.field.spec_field().end <= 8 * b.len()
    &&& !(s.converter is Polynomial) ==> fits_i64(s.field.spec_read(b))
}

/// `raw` and `converted` are what reading `s` from `b` gives.
pub open spec fn integral_reading(s: IntegralFieldSchema, b: Seq<u8>, raw: Seq<u8>, converted: FieldValue) -> bool {
    let v = s.field.spec_read(b);
    &&& raw == be_bytes_of(raw_of(v) as nat, s.field.spec_type().spec_bits() / 8)
    &&& match s.converter {
        IntegralConversion::Unconverted => converted matches FieldValue::Integer(i) && i == v,
        IntegralConversion::Status(st) => converted matches FieldValue::Constant(label) && label@
            == status_label(st.spec_map(), v as i64, st.spec_default()),
        IntegralConversion::Polynomial => converted matches FieldValue::PolynomialOfIntegral(x) && x.spec_int()
            == v && x.spec_type() == s.field.spec_type(),
    }
}

impl IntegralFieldSchema {
    /// Reads the field: its bytes as stored in its type, and its converted
    /// value.
    pub fn read_from(&self, bytes: &[u8]) -> (r: Result<(Vec<u8>, FieldValue), FieldError>)
        requires
            self.field.wf(),
        ensures
            r is Ok <==> integral_read_ok(*self, bytes@),
            !(self.field.spec_field().end <= 8 * bytes@.len()) ==> r == Err::<(Vec<u8>, FieldValue), FieldError>(
                FieldError::OutOfRange,
            ),
            r matches Ok((raw, converted)) ==> integral_reading(*self, bytes@, raw@, converted),
    {
        proof {
            lemma2_to64();
            lemma2_to64_rest();
        }
        let value = match self.field.read(bytes) {
            Ok(v) => v,
            Err(e) => return Err(e),
        };
        let raw = integral_to_bytes(value);
        let converted = match &self.converter {
            IntegralConversion::Polynomial => FieldValue::PolynomialOfIntegral(value),
            IntegralConversion::Status(status) => {
                let i = match value.convert(IntegralType::I64) {
                    Some(IntegralValue::I64(i)) => i,
                    _ => return Err(FieldError::NotRepresentable),
                };
                FieldValue::Constant(status.convert(i))
            },
            IntegralConversion::Unconverted => {
                let i = match value.convert(IntegralType::I64) {
                    Some(IntegralValue::I64(i)) => i,
                    _ => return Err(FieldError::NotRepresentable),
                };
                FieldValue::Integer(i)
            },
        };
        Ok((raw, converted))
    }
}

/// A floating field of a telemetry; `has_polynomial` tells whether its value
/// goes through a polynomial.
#[derive(Debug, Clone)]
pub struct FloatingFieldSchema {
    pub has_polynomial: bool,
    pub field: GenericFloatingField,
}

/// `raw` and `converted` are what reading `s` from `b` gives.
pub open spec fn floating_reading(s: FloatingFieldSchema, b: Seq<u8>, raw: Seq<u8>, converted: FieldValue) -> bool {
    converted matches FieldValue::Floating(v) && s.field.spec_accepts(v) && spec_floating_bits(v)
        == crate::bits::bits_val(b, s.field.spec_field().start as int, s.field.spec_field().end as int)
        && raw == be_bytes_of(
        spec_floating_bits(v),
        match v {
            FloatingValue::F32(_) => 4nat,
            FloatingValue::F64(_) => 8nat,
        },
    )
}

impl FloatingFieldSchema {
    /// Reads the field: its bytes, and its bit pattern.
    pub fn read_from(&self, bytes: &[u8]) -> (r: Result<(Vec<u8>, FieldValue), FieldError>)
        requires
            self.field.wf(),
        ensures
            r is Ok <==> self.field.spec_field().end <= 8 * bytes@.len(),
            r matches Ok((raw, converted)) ==> floating_reading(*self, bytes@, raw@, converted),
    {
        let value = match self.field.read(bytes) {
            Ok(v) => v,
            Err(e) => return Err(e),
        };
        let raw = match value {
            FloatingValue::F32(b) => be_bytes(b as u64, 4),
            FloatingValue::F64(b) => be_bytes(b, 8),
        };
        Ok((raw, FieldValue::Floating(value)))
    }
}

pub struct FieldMetadata {
    pub description: String,
}

pub enum FieldValueSchema {
    Integral(IntegralFieldSchema),
    Floating(FloatingFieldSchema),
}

pub struct FieldSchema {
    pub metadata: FieldMetadata,
    pub value: FieldValueSchema,
}

/// The on-board type of a telemetry variable.
#[derive(Debug, Clone, Copy, PartialEq, Eq, Structural)]
pub enum VariableType {
    Int8,
    Int16,
    Int32,
    Uint8,
    Uint16,
    Uint32,
    Float,
    Double,
}

/// Where a field sits in the packet: a bit offset within an octet.
#[derive(Debug, Clone, Copy, PartialEq, Eq, Structural)]
pub struct FieldExtractionInfo {
    pub octet_position: usize,
    pub bit_position: usize,
    pub bit_length: usize,
}

/// The bits `[start, end)` a field occupies, counted from the start of the
/// packet; `None` where they cannot be counted in a `usize`.
pub fn build_bit_range(info: FieldExtractionInfo) -> (r: Option<(usize, usize)>)
    ensures
        ({
            let start = info.octet_position * 8 + info.bit_position;
            let end = start + info.bit_length;
            &&& r is Some <==> end <= usize::MAX
            &&& r matches Some((s, e)) ==> s == start && e == end
        }),
{
    if info.octet_position > (usize::MAX - info.bit_position) / 8 {
        return None;
    }
    let start = info.octet_position * 8 + info.bit_position;
    if info.bit_length > usize::MAX - start {
        return None;
    }
    Some((start, start + info.bit_length))
}

/// Why a telemetry field could not be given a schema.
#[derive(Debug, Clone, Copy, PartialEq, Eq, Structural)]
pub enum FieldSchemaError {
    /// The bit range is empty or wider than the variable's type.
    InvalidBitRange,
    /// A status conversion was given for a floating-point variable.
    StatusOnFloating,
}

pub open spec fn variable_bits(t: VariableType) -> nat {
    match t {
        VariableType::Int8 | VariableType::Uint8 => 8,
        VariableType::Int16 | VariableType::Uint16 => 16,
        VariableType::Int32 | VariableType::Uint32 | VariableType::Float => 32,
        VariableType::Double => 64,
    }
}

/// The schema of a field of type `t` over bits `[start, end)`: the range
/// must be non-empty and no wider than the type; integer variables keep
/// their conversion, floating ones take a polynomial or none.
pub open spec fn field_schema_of(
    t: VariableType,
    conversion: IntegralConversion,
    description: String,
    start: usize,
    end: usize,
) -> Result<FieldSchema, FieldSchemaError> {
    let metadata = FieldMetadata { description };
    let f = IntegralField { start, end };
    let g = FloatingField { start, end };
    if !(start < end && end - start <= variable_bits(t)) {
        Err(FieldSchemaError::InvalidBitRange)
    } else {
        match t {
            VariableType::Float | VariableType::Double => match conversion {
                IntegralConversion::Status(_) => Err(FieldSchemaError::StatusOnFloating),
                _ => Ok(
                    FieldSchema {
                        metadata,
                        value: FieldValueSchema::Floating(
                            FloatingFieldSchema {
                                has_polynomial: conversion is Polynomial,
                                field: if t == VariableType::Float {
                                    GenericFloatingField::F32(g)
                                } else {
                                    GenericFloatingField::F64(g)
                                },
                            },
                        ),
                    },
                ),
            },
            _ => Ok(
                FieldSchema {
                    metadata,
                    value: FieldValueSchema::Integral(
                        IntegralFieldSchema {
                            converter: conversion,
                            field: match t {
                                VariableType::Int8 => GenericIntegralField::I8(f),
                                VariableType::Int16 => GenericIntegralField::I16(f),
                                VariableType::Int32 => GenericIntegralField::I32(f),
                                VariableType::Uint8 => GenericIntegralField::U8(f),
                                VariableType::Uint16 => GenericIntegralField::U16(f),
                                _ => GenericIntegralField::U32(f),
                            },
                        },
                    ),
                },
            ),
        }
    }
}

/// The field of a built schema fits its type.
pub open spec fn field_schema_wf(fs: FieldSchema) -> bool {
    match fs.value {
        FieldValueSchema::Integral(s) => s.field.wf(),
        FieldValueSchema::Floating(s) => s.field.wf(),
    }
}

/// Builds the schema of a field of type `variable_type` over bits
/// `[start, end)`: integer variables keep their conversion; floating ones
/// take a polynomial or none.
pub fn build_field_schema(
    variable_type: VariableType,
    conversion: IntegralConversion,
    description: String,
    start: usize,
    end: usize,
) -> (r: Result<FieldSchema, FieldSchemaError>)
    ensures
        r == field_schema_of(variable_type, conversion, description, start, end),
        r matches Ok(fs) ==> field_schema_wf(fs),
{
    let metadata = FieldMetadata { description };
    let value = match variable_type {
        VariableType::Float | VariableType::Double => {
            let bits: usize = if variable_type == VariableType::Float {
                32
            } else {
                64
            };
            let field = match FloatingField::new(start, end, bits) {
                Some(f) => f,
                None => return Err(FieldSchemaError::InvalidBitRange),
            };
            let has_polynomial = match conversion {
                IntegralConversion::Status(_) => return Err(FieldSchemaError::StatusOnFloating),
                IntegralConversion::Polynomial => true,
                IntegralConversion::Unconverted => false,
            };
            let field = if variable_type == VariableType::Float {
                GenericFloatingField::F32(field)
            } else {
                GenericFloatingField::F64(field)
            };
            FieldValueSchema::Floating(FloatingFieldSchema { has_polynomial, field })
        },
        _ => {
            let bits: usize = match variable_type {
                VariableType::Int8 | VariableType::Uint8 => 8,
                VariableType::Int16 | VariableType::Uint16 => 16,
                _ => 32,
            };
            let field = match IntegralField::new(start, end, bits) {
                Some(f) => f,
                None => return Err(FieldSchemaError::InvalidBitRange),
            };
            let field = match variable_type {
                VariableType::Int8 => GenericIntegralField::I8(field),
                VariableType::Int16 => GenericIntegralField::I16(field),
                VariableType::Int32 => GenericIntegralField::I32(field),
                VariableType::Uint8 => GenericIntegralField::U8(field),
                VariableType::Uint16 => GenericIntegralField::U16(field),
                _ => GenericIntegralField::U32(field),
            };
            FieldValueSchema::Integral(IntegralFieldSchema { converter: conversion, field })
        },
    };
    Ok(FieldSchema { metadata, value })
}

} // verus!
