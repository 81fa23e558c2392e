use vstd::arithmetic::div_mod::*;
use vstd::arithmetic::power2::*;
use vstd::prelude::*;

use crate::bits::{bits_hold, bits_val, lemma_bits_hold_val, lemma_bits_val_bound, read_bits, same_outside, write_bits};

verus! {

/// Why a field could not be read or written.
#[derive(Debug, Clone, Copy, PartialEq, Eq, Structural)]
pub enum FieldError {
    /// The field's bit range reaches past the end of the buffer.
    OutOfRange,
    /// The value is not representable in the field's integer type.
    NotRepresentable,
}

/// The concrete integer types a field can be read as.
#[derive(Debug, Clone, Copy, PartialEq, Eq, Structural)]
pub enum IntegralType {
    I8,
    I16,
    I32,
    I64,
    U8,
    U16,
    U32,
    U64,
}

impl IntegralType {
    pub open spec fn spec_bits(self) -> nat {
        match self {
            IntegralType::I8 | IntegralType::U8 => 8,
            IntegralType::I16 | IntegralType::U16 => 16,
            IntegralType::I32 | IntegralType::U32 => 32,
            IntegralType::I64 | IntegralType::U64 => 64,
        }
    }

    pub open spec fn spec_signed(self) -> bool {
        match self {
            IntegralType::I8 | IntegralType::I16 | IntegralType::I32 | IntegralType::I64 => true,
            _ => false,
        }
    }

    /// Smallest value of the type.
    pub open spec fn spec_min(self) -> int {
        if self.spec_signed() {
            -(pow2((self.spec_bits() - 1) as nat) as int)
        } else {
            0
        }
    }

    /// Largest value of the type.
    pub open spec fn spec_max(self) -> int {
        if self.spec_signed() {
            pow2((self.spec_bits() - 1) as nat) - 1
        } else {
            pow2(self.spec_bits()) - 1
        }
    }

    pub fn bits(self) -> (r: usize)
        ensures
            r == self.spec_bits(),
    {
        match self {
            IntegralType::I8 | IntegralType::U8 => 8,
            IntegralType::I16 | IntegralType::U16 => 16,
            IntegralType::I32 | IntegralType::U32 => 32,
            IntegralType::I64 | IntegralType::U64 => 64,
        }
    }

    pub fn is_signed(self) -> (r: bool)
        ensures
            r == self.spec_signed(),
    {
        match self {
            IntegralType::I8 | IntegralType::I16 | IntegralType::I32 | IntegralType::I64 => true,
            _ => false,
        }
    }
}

/// An integer of one of the concrete widths.
#[derive(Debug, Clone, Copy, PartialEq, Eq, Structural)]
pub enum IntegralValue {
    I8(i8),
    I16(i16),
    I32(i32),
    I64(i64),
    U8(u8),
    U16(u16),
    U32(u32),
    U64(u64),
}

impl IntegralValue {
    /// The mathematical integer held.
    pub open spec fn spec_int(self) -> int {
        match self {
            IntegralValue::I8(v) => v as int,
            IntegralValue::I16(v) => v as int,
            IntegralValue::I32(v) => v as int,
            IntegralValue::I64(v) => v as int,
            IntegralValue::U8(v) => v as int,
            IntegralValue::U16(v) => v as int,
            IntegralValue::U32(v) => v as int,
            IntegralValue::U64(v) => v as int,
        }
    }

    pub open spec fn spec_type(self) -> IntegralType {
        match self {
            IntegralValue::I8(_) => IntegralType::I8,
            IntegralValue::I16(_) => IntegralType::I16,
            IntegralValue::I32(_) => IntegralType::I32,
            IntegralValue::I64(_) => IntegralType::I64,
            IntegralValue::U8(_) => IntegralType::U8,
            IntegralValue::U16(_) => IntegralType::U16,
            IntegralValue::U32(_) => IntegralType::U32,
            IntegralValue::U64(_) => IntegralType::U64,
        }
    }

    /// The integer held, widened.
    pub fn value(&self) -> (r: i128)
        ensures
            r as int == self.spec_int(),
    {
        match *self {
            IntegralValue::I8(v) => v as i128,
            IntegralValue::I16(v) => v as i128,
            IntegralValue::I32(v) => v as i128,
            IntegralValue::I64(v) => v as i128,
            IntegralValue::U8(v) => v as i128,
            IntegralValue::U16(v) => v as i128,
            IntegralValue::U32(v) => v as i128,
            IntegralValue::U64(v) => v as i128,
        }
    }

    /// The same integer as a value of type `ty`, where it is representable
    /// there.
    pub fn convert(&self, ty: IntegralType) -> (r: Option<IntegralValue>)
        ensures
            r is Some <==> ty.spec_min() <= self.spec_int() <= ty.spec_max(),
            r matches Some(c) ==> c.spec_int() == self.spec_int() && c.spec_type() == ty,
    {
        proof {
            lemma2_to64();
            lemma2_to64_rest();
        }
        let v = self.value();
        match ty {
            IntegralType::I8 => if -128 <= v && v <= 127 {
                Some(IntegralValue::I8(v as i8))
            } else {
                None
            },
            IntegralType::I16 => if -32768 <= v && v <= 32767 {
                Some(IntegralValue::I16(v as i16))
            } else {
                None
            },
            IntegralType::I32 => if -2147483648 <= v && v <= 2147483647 {
                Some(IntegralValue::I32(v as i32))
            } else {
                None
            },
            IntegralType::I64 => if -9223372036854775808 <= v && v <= 9223372036854775807 {
                Some(IntegralValue::I64(v as i64))
            } else {
                None
            },
            IntegralType::U8 => if 0 <= v && v <= 255 {
                Some(IntegralValue::U8(v as u8))
            } else {
                None
            },
            IntegralType::U16 => if 0 <= v && v <= 65535 {
                Some(IntegralValue::U16(v as u16))
            } else {
                None
            },
            IntegralType::U32 => if 0 <= v && v <= 4294967295 {
                Some(IntegralValue::U32(v as u32))
            } else {
                None
            },
            IntegralType::U64 => if 0 <= v && v <= 18446744073709551615 {
                Some(IntegralValue::U64(v as u64))
            } else {
                None
            },
        }
    }
}

/// The value that an integer field of `n` bits whose bits spell `raw` stands
/// for: `raw` itself, or for a signed type its two's-complement reading.
pub open spec fn field_int(raw: nat, n: nat, signed: bool) -> int {
    if signed && raw >= pow2((n - 1) as nat) {
        raw - pow2(n)
    } else {
        raw as int
    }
}

/// The 64-bit two's-complement pattern of `v`.
pub open spec fn raw_of(v: int) -> int {
    v % (pow2(64) as int)
}

/// A contiguous bit range `[start, end)` over a buffer read MSB0.
#[derive(Debug, Clone, Copy, PartialEq, Eq, Structural)]
pub struct IntegralField {
    pub start: usize,
    pub end: usize,
}

impl IntegralField {
    pub open spec fn wf(self) -> bool {
        self.start < self.end && self.end - self.start <= 64
    }

    /// A field over `[start, end)` for a type of `type_bits` bits: the range
    /// must be non-empty and no wider than the type.
    pub fn new(start: usize, end: usize, type_bits: usize) -> (r: Option<IntegralField>)
        ensures
            r is Some <==> start < end && end - start <= type_bits,
            r matches Some(f) ==> f.start == start && f.end == end,
    {
        if start >= end || end - start > type_bits {
            None
        } else {
            Some(IntegralField { start, end })
        }
    }

    pub fn bit_len(&self) -> (r: usize)
        requires
            self.start <= self.end,
        ensures
            r == self.end - self.start,
    {
        self.end - self.start
    }

    pub fn last_bit_exclusive(&self) -> (r: usize)
        ensures
            r == self.end,
    {
        self.end
    }

    /// The unsigned value of the field's bits.
    pub fn read(&self, bytes: &[u8]) -> (r: Result<u64, FieldError>)
        requires
            self.wf(),
        ensures
            r is Ok <==> self.end <= 8 * bytes@.len(),
            r matches Ok(v) ==> v as nat == bits_val(bytes@, self.start as int, self.end as int),
            r is Err ==> r == Err::<u64, FieldError>(FieldError::OutOfRange),
    {
        if self.end / 8 > bytes.len() || (self.end / 8 == bytes.len() && self.end % 8 != 0) {
            return Err(FieldError::OutOfRange);
        }
        Ok(read_bits(bytes, self.start, self.end))
    }

    /// Stores the low bits of `v` in the field; every other bit is kept.
    pub fn write(&self, bytes: &mut Vec<u8>, v: u64) -> (r: Result<(), FieldError>)
        requires
            self.wf(),
        ensures
            r is Ok <==> self.end <= 8 * old(bytes)@.len(),
            r is Ok ==> bits_hold(final(bytes)@, self.start as int, self.end as int, v as int)
                && same_outside(old(bytes)@, final(bytes)@, self.start as int, self.end as int),
            r is Err ==> final(bytes)@ == old(bytes)@ && r == Err::<(), FieldError>(
                FieldError::OutOfRange,
            ),
    {
        if self.end / 8 > bytes.len() || (self.end / 8 == bytes.len() && self.end % 8 != 0) {
            return Err(FieldError::OutOfRange);
        }
        write_bits(bytes, self.start, self.end, v);
        Ok(())
    }
}

/// `2^n` for `n <= 64`.
fn pow2_u128(n: usize) -> (r: u128)
    requires
        n <= 64,
    ensures
        r as int == pow2(n as nat),
{
    let mut r: u128 = 1;
    let mut i: usize = 0;
    proof {
        lemma2_to64();
    }
    while i < n
        invariant
            i <= n <= 64,
            r as int == pow2(i as nat),
        decreases n - i,
    {
        proof {
            lemma_pow2_unfold((i + 1) as nat);
            lemma_pow2_strictly_increases((i + 1) as nat, 65);
            lemma2_to64_rest();
            assert(pow2(65) == 2 * pow2(64)) by {
                lemma_pow2_unfold(65);
            }
        }
        r = r * 2;
        i = i + 1;
    }
    r
}

/// An integer field together with the type it is read as.
#[derive(Debug, Clone, Copy, PartialEq, Eq, Structural)]
pub enum GenericIntegralField {
    I8(IntegralField),
    I16(IntegralField),
    I32(IntegralField),
    I64(IntegralField),
    U8(IntegralField),
    U16(IntegralField),
    U32(IntegralField),
    U64(IntegralField),
}

impl GenericIntegralField {
    pub open spec fn spec_field(self) -> IntegralField {
        match self {
            GenericIntegralField::I8(f) => f,
            GenericIntegralField::I16(f) => f,
            GenericIntegralField::I32(f) => f,
            GenericIntegralField::I64(f) => f,
            GenericIntegralField::U8(f) => f,
            GenericIntegralField::U16(f) => f,
            GenericIntegralField::U32(f) => f,
            GenericIntegralField::U64(f) => f,
        }
    }

    pub open spec fn spec_type(self) -> IntegralType {
        match self {
            GenericIntegralField::I8(_) => IntegralType::I8,
            GenericIntegralField::I16(_) => IntegralType::I16,
            GenericIntegralField::I32(_) => IntegralType::I32,
            GenericIntegralField::I64(_) => IntegralType::I64,
            GenericIntegralField::U8(_) => IntegralType::U8,
            GenericIntegralField::U16(_) => IntegralType::U16,
            GenericIntegralField::U32(_) => IntegralType::U32,
            GenericIntegralField::U64(_) => IntegralType::U64,
        }
    }

    /// The range is non-empty and no wider than the type.
    pub open spec fn wf(self) -> bool {
        let f = self.spec_field();
        f.start < f.end && f.end - f.start <= self.spec_type().spec_bits()
    }

    pub open spec fn spec_width(self) -> nat {
        (self.spec_field().end - self.spec_field().start) as nat
    }

    /// The value the field holds in `b`.
    pub open spec fn spec_read(self, b: Seq<u8>) -> int {
        let f = self.spec_field();
        field_int(
            bits_val(b, f.start as int, f.end as int),
            self.spec_width(),
            self.spec_type().spec_signed(),
        )
    }

    /// Where `value` can be stored: it is representable in the field's type.
    pub open spec fn spec_accepts(self, value: int) -> bool {
        self.spec_type().spec_min() <= value <= self.spec_type().spec_max()
    }

    /// `value` is representable in the field's own width: in two's
    /// complement for a signed type.
    pub open spec fn spec_fits_width(self, value: int) -> bool {
        let n = self.spec_width();
        if self.spec_type().spec_signed() {
            -(pow2((n - 1) as nat) as int) <= value < pow2((n - 1) as nat)
        } else {
            0 <= value < pow2(n)
        }
    }

    pub fn integral_type(&self) -> (r: IntegralType)
        ensures
            r == self.spec_type(),
    {
        match self {
            GenericIntegralField::I8(_) => IntegralType::I8,
            GenericIntegralField::I16(_) => IntegralType::I16,
            GenericIntegralField::I32(_) => IntegralType::I32,
            GenericIntegralField::I64(_) => IntegralType::I64,
            GenericIntegralField::U8(_) => IntegralType::U8,
            GenericIntegralField::U16(_) => IntegralType::U16,
            GenericIntegralField::U32(_) => IntegralType::U32,
            GenericIntegralField::U64(_) => IntegralType::U64,
        }
    }

    pub fn field(&self) -> (r: IntegralField)
        ensures
            r == self.spec_field(),
    {
        match *self {
            GenericIntegralField::I8(f) => f,
            GenericIntegralField::I16(f) => f,
            GenericIntegralField::I32(f) => f,
            GenericIntegralField::I64(f) => f,
            GenericIntegralField::U8(f) => f,
            GenericIntegralField::U16(f) => f,
            GenericIntegralField::U32(f) => f,
            GenericIntegralField::U64(f) => f,
        }
    }

    pub fn bit_len(&self) -> (r: usize)
        requires
            self.wf(),
        ensures
            r == self.spec_width(),
    {
        self.field().bit_len()
    }

    pub fn last_bit_exclusive(&self) -> (r: usize)
        ensures
            r == self.spec_field().end,
    {
        self.field().last_bit_exclusive()
    }

    /// Reads the field as a value of its type; a signed type is read in two's
    /// complement over the field's width.
    pub fn read(&self, bytes: &[u8]) -> (r: Result<IntegralValue, FieldError>)
        requires
            self.wf(),
        ensures
            r is Ok <==> self.spec_field().end <= 8 * bytes@.len(),
            r matches Ok(v) ==> v.spec_int() == self.spec_read(bytes@) && v.spec_type()
                == self.spec_type(),
            r is Err ==> r == Err::<IntegralValue, FieldError>(FieldError::OutOfRange),
    {
        let f = self.field();
        let ty = self.integral_type();
        let raw = match f.read(bytes) {
            Ok(raw) => raw,
            Err(_) => return Err(FieldError::OutOfRange),
        };
        let n = f.bit_len();
        proof {
            lemma_bits_val_bound(bytes@, f.start as int, f.end as int);
            lemma2_to64();
            lemma2_to64_rest();
            lemma_pow2_unfold(n as nat);
            if n < ty.spec_bits() {
                lemma_pow2_strictly_increases(n as nat, ty.spec_bits());
            }
            if n > 1 && n < ty.spec_bits() {
                lemma_pow2_strictly_increases((n - 1) as nat, (ty.spec_bits() - 1) as nat);
            }
        }
        let pow = pow2_u128(n);
        let half = pow / 2;
        let value: i128 = if ty.is_signed() && raw as u128 >= half {
            raw as i128 - pow as i128
        } else {
            raw as i128
        };
        proof {
            assert(ty.spec_min() <= value <= ty.spec_max());
        }
        Ok(value_of(value, ty))
    }

    /// Stores `value` in the field, converted to the field's type; fails
    /// where the value is not representable there or the range does not fit
    /// the buffer. The low bits of the two's-complement pattern are stored.
    pub fn write(&self, bytes: &mut Vec<u8>, value: IntegralValue) -> (r: Result<(), FieldError>)
        requires
            self.wf(),
        ensures
            r is Ok <==> self.spec_accepts(value.spec_int()) && self.spec_field().end <= 8 * old(
                bytes,
            )@.len(),
            r is Ok ==> bits_hold(
                final(bytes)@,
                self.spec_field().start as int,
                self.spec_field().end as int,
                raw_of(value.spec_int()),
            ) && same_outside(
                old(bytes)@,
                final(bytes)@,
                self.spec_field().start as int,
                self.spec_field().end as int,
            ),
            r is Ok && self.spec_fits_width(value.spec_int()) ==> self.spec_read(final(bytes)@)
                == value.spec_int(),
            r is Err ==> final(bytes)@ == old(bytes)@,
            r == Err::<(), FieldError>(FieldError::NotRepresentable) <==> !self.spec_accepts(
                value.spec_int(),
            ),
            r is Err && self.spec_accepts(value.spec_int()) ==> r == Err::<(), FieldError>(
                FieldError::OutOfRange,
            ),
    {
        let ty = self.integral_type();
        if value.convert(ty).is_none() {
            return Err(FieldError::NotRepresentable);
        }
        let v = value.value();
        proof {
            lemma2_to64();
            lemma2_to64_rest();
        }
        let raw: u64 = if v >= 0 {
            v as u64
        } else {
            (v + 18446744073709551616i128) as u64
        };
        proof {
            if v >= 0 {
                lemma_small_mod(v as nat, pow2(64));
            } else {
                lemma_mod_add_multiples_vanish(v as int, pow2(64) as int);
                lemma_small_mod((v + 18446744073709551616) as nat, pow2(64));
            }
        }
        let r = self.field().write(bytes, raw);
        proof {
            if r is Ok && self.spec_fits_width(value.spec_int()) {
                lemma_write_then_read(*self, bytes@, value.spec_int());
            }
        }
        r
    }
}

/// Reading back a field whose bits hold a value that fits the field's width
/// gives that value: a write followed by a read returns what was written.
pub proof fn lemma_write_then_read(f: GenericIntegralField, b: Seq<u8>, v: int)
    requires
        f.wf(),
        f.spec_fits_width(v),
        bits_hold(b, f.spec_field().start as int, f.spec_field().end as int, raw_of(v)),
    ensures
        f.spec_read(b) == v,
{
    let s = f.spec_field().start as int;
    let e = f.spec_field().end as int;
    let n = f.spec_width();
    let m = pow2(n) as int;
    lemma_pow2_pos(n);
    lemma_pow2_pos((64 - n) as nat);
    lemma_pow2_adds(n, (64 - n) as nat);
    assert(n + (64 - n) as nat == 64);
    lemma_pow2_pos(64);
    lemma_mod_bound(v, pow2(64) as int);
    lemma_bits_hold_val(b, s, e, raw_of(v));
    lemma_mod_mod(v, m, pow2((64 - n) as nat) as int);
    assert(bits_val(b, s, e) == v % m);
    lemma_pow2_unfold(n);
    if v >= 0 {
        lemma_small_mod(v as nat, m as nat);
    } else {
        lemma_mod_add_multiples_vanish(v, m);
        lemma_small_mod((v + m) as nat, m as nat);
    }
}

/// The value `v` of type `ty`, which holds it.
fn value_of(v: i128, ty: IntegralType) -> (r: IntegralValue)
    requires
        ty.spec_min() <= v <= ty.spec_max(),
    ensures
        r.spec_int() == v,
        r.spec_type() == ty,
{
    proof {
        lemma2_to64();
        lemma2_to64_rest();
    }
    match ty {
        IntegralType::I8 => IntegralValue::I8(v as i8),
        IntegralType::I16 => IntegralValue::I16(v as i16),
        IntegralType::I32 => IntegralValue::I32(v as i32),
        IntegralType::I64 => IntegralValue::I64(v as i64),
        IntegralType::U8 => IntegralValue::U8(v as u8),
        IntegralType::U16 => IntegralValue::U16(v as u16),
        IntegralType::U32 => IntegralValue::U32(v as u32),
        IntegralType::U64 => IntegralValue::U64(v as u64),
    }
}

/// The bit pattern of an IEEE-754 value of one of the two widths.
#[derive(Debug, Clone, Copy, PartialEq, Eq, Structural)]
pub enum FloatingValue {
    F32(u32),
    F64(u64),
}

/// A bit range that holds the pattern of an IEEE-754 value.
#[derive(Debug, Clone, Copy, PartialEq, Eq, Structural)]
pub struct FloatingField {
    pub start: usize,
    pub end: usize,
}

impl FloatingField {
    /// A field over `[start, end)` for a format of `type_bits` bits: the
    /// range must be non-empty and no wider than the format.
    pub fn new(start: usize, end: usize, type_bits: usize) -> (r: Option<FloatingField>)
        ensures
            r is Some <==> start < end && end - start <= type_bits,
            r matches Some(f) ==> f.start == start && f.end == end,
    {
        if start >= end || end - start > type_bits {
            None
        } else {
            Some(FloatingField { start, end })
        }
    }
}

/// A floating field of one of the two widths.
#[derive(Debug, Clone, Copy, PartialEq, Eq, Structural)]
pub enum GenericFloatingField {
    F32(FloatingField),
    F64(FloatingField),
}

impl GenericFloatingField {
    pub open spec fn spec_field(self) -> FloatingField {
        match self {
            GenericFloatingField::F32(f) => f,
            GenericFloatingField::F64(f) => f,
        }
    }

    pub open spec fn wf(self) -> bool {
        let f = self.spec_field();
        f.start < f.end && f.end - f.start <= match self {
            GenericFloatingField::F32(_) => 32nat,
            GenericFloatingField::F64(_) => 64nat,
        }
    }

    /// `value` has this field's format.
    pub open spec fn spec_accepts(self, value: FloatingValue) -> bool {
        match (self, value) {
            (GenericFloatingField::F32(_), FloatingValue::F32(_)) => true,
            (GenericFloatingField::F64(_), FloatingValue::F64(_)) => true,
            _ => false,
        }
    }

    pub fn field(&self) -> (r: FloatingField)
        ensures
            r == self.spec_field(),
    {
        match *self {
            GenericFloatingField::F32(f) => f,
            GenericFloatingField::F64(f) => f,
        }
    }

    /// Reads the bit pattern held by the field.
    pub fn read(&self, bytes: &[u8]) -> (r: Result<FloatingValue, FieldError>)
        requires
            self.wf(),
        ensures
            r is Ok <==> self.spec_field().end <= 8 * bytes@.len(),
            r matches Ok(v) ==> self.spec_accepts(v) && spec_floating_bits(v) == bits_val(
                bytes@,
                self.spec_field().start as int,
                self.spec_field().end as int,
            ),
    {
        let f = self.field();
        let raw = IntegralField { start: f.start, end: f.end }.read(bytes)?;
        proof {
            lemma_bits_val_bound(bytes@, f.start as int, f.end as int);
            lemma2_to64();
            if f.end - f.start < 32 {
                lemma_pow2_strictly_increases((f.end - f.start) as nat, 32);
            }
        }
        match self {
            GenericFloatingField::F32(_) => Ok(FloatingValue::F32(raw as u32)),
            GenericFloatingField::F64(_) => Ok(FloatingValue::F64(raw)),
        }
    }

    /// Stores the bit pattern `value`, which must have the field's format.
    pub fn write(&self, bytes: &mut Vec<u8>, value: FloatingValue) -> (r: Result<(), FieldError>)
        requires
            self.wf(),
        ensures
            r is Ok <==> self.spec_accepts(value) && self.spec_field().end <= 8 * old(bytes)@.len(),
            r is Ok ==> bits_hold(
                final(bytes)@,
                self.spec_field().start as int,
                self.spec_field().end as int,
                spec_floating_bits(value) as int,
            ) && same_outside(
                old(bytes)@,
                final(bytes)@,
                self.spec_field().start as int,
                self.spec_field().end as int,
            ),
            r is Err ==> final(bytes)@ == old(bytes)@,
            !self.spec_accepts(value) ==> r == Err::<(), FieldError>(FieldError::NotRepresentable),
            r is Err && self.spec_accepts(value) ==> r == Err::<(), FieldError>(FieldError::OutOfRange),
    {
        let raw: u64 = match (self, value) {
            (GenericFloatingField::F32(_), FloatingValue::F32(b)) => b as u64,
            (GenericFloatingField::F64(_), FloatingValue::F64(b)) => b,
            _ => return Err(FieldError::NotRepresentable),
        };
        let f = self.field();
        IntegralField { start: f.start, end: f.end }.write(bytes, raw)
    }
}

pub open spec fn spec_floating_bits(v: FloatingValue) -> nat {
    match v {
        FloatingValue::F32(b) => b as nat,
        FloatingValue::F64(b) => b as nat,
    }
}

/// An integer or a floating value.
#[derive(Debug, Clone, Copy, PartialEq, Eq, Structural)]
pub enum NumericValue {
    Integral(IntegralValue),
    Floating(FloatingValue),
}

/// An integer or a floating field.
#[derive(Debug, Clone, Copy, PartialEq, Eq, Structural)]
pub enum NumericField {
    Integral(GenericIntegralField),
    Floating(GenericFloatingField),
}

impl NumericField {
    pub open spec fn wf(self) -> bool {
        match self {
            NumericField::Integral(f) => f.wf(),
            NumericField::Floating(f) => f.wf(),
        }
    }

    pub open spec fn spec_start(self) -> usize {
        match self {
            NumericField::Integral(f) => f.spec_field().start,
            NumericField::Floating(f) => f.spec_field().start,
        }
    }

    pub open spec fn spec_end(self) -> usize {
        match self {
            NumericField::Integral(f) => f.spec_field().end,
            NumericField::Floating(f) => f.spec_field().end,
        }
    }

    /// `value` can be stored in the field.
    pub open spec fn spec_accepts(self, value: NumericValue) -> bool {
        match (self, value) {
            (NumericField::Integral(f), NumericValue::Integral(v)) => f.spec_accepts(v.spec_int()),
            (NumericField::Floating(f), NumericValue::Floating(v)) => f.spec_accepts(v),
            _ => false,
        }
    }

    /// The field's bits in `b` spell `value`.
    pub open spec fn spec_holds(self, b: Seq<u8>, value: NumericValue) -> bool {
        match value {
            NumericValue::Integral(v) => bits_hold(
                b,
                self.spec_start() as int,
                self.spec_end() as int,
                raw_of(v.spec_int()),
            ),
            NumericValue::Floating(v) => bits_hold(
                b,
                self.spec_start() as int,
                self.spec_end() as int,
                spec_floating_bits(v) as int,
            ),
        }
    }

    pub fn bit_len(&self) -> (r: usize)
        requires
            self.wf(),
        ensures
            r == self.spec_end() - self.spec_start(),
    {
        match self {
            NumericField::Integral(f) => f.bit_len(),
            NumericField::Floating(f) => f.field().end - f.field().start,
        }
    }

    pub fn last_bit_exclusive(&self) -> (r: usize)
        ensures
            r == self.spec_end(),
    {
        match self {
            NumericField::Integral(f) => f.last_bit_exclusive(),
            NumericField::Floating(f) => f.field().end,
        }
    }

    /// Stores `value`; fails where it is of the other kind, not
    /// representable, or the field does not fit the buffer.
    pub fn write(&self, bytes: &mut Vec<u8>, value: NumericValue) -> (r: Result<(), FieldError>)
        requires
            self.wf(),
        ensures
            r is Ok <==> self.spec_accepts(value) && self.spec_end() <= 8 * old(bytes)@.len(),
            r is Ok ==> self.spec_holds(final(bytes)@, value) && same_outside(
                old(bytes)@,
                final(bytes)@,
                self.spec_start() as int,
                self.spec_end() as int,
            ),
            r is Err ==> final(bytes)@ == old(bytes)@,
            !self.spec_accepts(value) ==> r == Err::<(), FieldError>(FieldError::NotRepresentable),
            r is Err && self.spec_accepts(value) ==> r == Err::<(), FieldError>(FieldError::OutOfRange),
    {
        match (self, value) {
            (NumericField::Integral(f), NumericValue::Integral(v)) => f.write(bytes, v),
            (NumericField::Floating(f), NumericValue::Floating(v)) => f.write(bytes, v),
            _ => Err(FieldError::NotRepresentable),
        }
    }
}

/// Collects fields and tracks how many bits they span.
pub struct SizedBuilder {
    fields: Vec<NumericField>,
    bit_len: usize,
}

impl SizedBuilder {
    pub closed spec fn spec_fields(&self) -> Seq<NumericField> {
        self.fields@
    }

    pub closed spec fn spec_bit_len(&self) -> nat {
        self.bit_len as nat
    }

    pub fn new() -> (r: SizedBuilder)
        ensures
            r.spec_fields() == Seq::<NumericField>::empty(),
            r.spec_bit_len() == 0,
    {
        SizedBuilder { fields: Vec::new(), bit_len: 0 }
    }

    /// Adds a field; the span grows to its end where it ends later.
    pub fn extend(&mut self, field: NumericField)
        ensures
            final(self).spec_fields() == old(self).spec_fields().push(field),
            final(self).spec_bit_len() == if field.spec_end() > old(self).spec_bit_len() {
                field.spec_end() as nat
            } else {
                old(self).spec_bit_len()
            },
    {
        let end = field.last_bit_exclusive();
        if end > self.bit_len {
            self.bit_len = end;
        }
        self.fields.push(field);
    }

    /// The end of the last bit of any field.
    pub fn bit_len(&self) -> (r: usize)
        ensures
            r == self.spec_bit_len(),
    {
        self.bit_len
    }

    /// Whole bytes that the fields span.
    pub fn byte_len(&self) -> (r: usize)
        ensures
            r == (if self.spec_bit_len() == 0 { 0 } else { (self.spec_bit_len() - 1) / 8 + 1 }),
    {
        if self.bit_len() == 0 {
            0
        } else {
            (self.bit_len() - 1) / 8 + 1
        }
    }

    pub fn build(self) -> (r: Vec<NumericField>)
        ensures
            r@ == self.spec_fields(),
    {
        self.fields
    }
}

} // verus!
