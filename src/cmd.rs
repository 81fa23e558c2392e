use vstd::prelude::*;

use crate::bits::{bit_at, bits_hold, lemma_bits_hold_kept, same_outside};
use crate::field::{
    FieldError, FloatingField, FloatingValue, GenericFloatingField, GenericIntegralField,
    IntegralField, IntegralValue, NumericField, NumericValue,
};

verus! {

/// Identifies a command in the database.
#[derive(Debug, Clone)]
pub struct Metadata {
    pub component_name: String,
    pub command_name: String,
    pub cmd_id: u16,
    pub description: String,
}

/// The type of a command parameter in the command database.
#[derive(Debug, Clone, Copy, PartialEq, Eq, Structural)]
pub enum ParamType {
    Int8,
    Int16,
    Int32,
    Uint8,
    Uint16,
    Uint32,
    Float,
    Double,
    /// Raw bytes; only valid as the last parameter.
    Raw,
}

pub open spec fn param_width(t: ParamType) -> nat {
    match t {
        ParamType::Int8 | ParamType::Uint8 => 8,
        ParamType::Int16 | ParamType::Uint16 => 16,
        ParamType::Int32 | ParamType::Uint32 | ParamType::Float => 32,
        ParamType::Double => 64,
        ParamType::Raw => 0,
    }
}

/// The field of a parameter of type `t` that starts at bit `at`.
pub open spec fn field_for(t: ParamType, at: usize) -> NumericField {
    let f = IntegralField { start: at, end: (at + param_width(t)) as usize };
    let g = FloatingField { start: at, end: (at + param_width(t)) as usize };
    match t {
        ParamType::Int8 => NumericField::Integral(GenericIntegralField::I8(f)),
        ParamType::Int16 => NumericField::Integral(GenericIntegralField::I16(f)),
        ParamType::Int32 => NumericField::Integral(GenericIntegralField::I32(f)),
        ParamType::Uint8 => NumericField::Integral(GenericIntegralField::U8(f)),
        ParamType::Uint16 => NumericField::Integral(GenericIntegralField::U16(f)),
        ParamType::Uint32 => NumericField::Integral(GenericIntegralField::U32(f)),
        ParamType::Float => NumericField::Floating(GenericFloatingField::F32(g)),
        _ => NumericField::Floating(GenericFloatingField::F64(g)),
    }
}

/// Where parameter `i` starts: the widths of the parameters before it.
pub open spec fn bit_offset(p: Seq<ParamType>, i: int) -> nat
    decreases i,
{
    if i <= 0 {
        0
    } else {
        bit_offset(p, i - 1) + param_width(p[i - 1])
    }
}

/// The position of the first raw parameter, or the number of parameters.
pub open spec fn first_raw(p: Seq<ParamType>, i: int) -> int
    decreases p.len() - i,
{
    if i >= p.len() {
        p.len() as int
    } else if p[i] == ParamType::Raw {
        i
    } else {
        first_raw(p, i + 1)
    }
}

/// Whole bytes needed for `bits` bits.
pub open spec fn byte_len_of(bits: nat) -> nat {
    if bits == 0 {
        0
    } else {
        ((bits - 1) / 8 + 1) as nat
    }
}

/// The on-wire layout of a command's parameters: numeric slots one after
/// another from bit 0, then optionally raw trailing bytes.
pub struct CommandSchema {
    pub sized_parameters: Vec<NumericField>,
    pub static_size: usize,
    pub has_trailer_parameter: bool,
}

impl CommandSchema {
    /// Slots are well formed, in order, not overlapping, and within the
    /// static size.
    pub open spec fn wf(&self) -> bool {
        let f = self.sized_parameters@;
        &&& forall|i: int| 0 <= i < f.len() ==> (#[trigger] f[i]).wf() && f[i].spec_end() <= 8
            * self.static_size
        &&& forall|i: int, j: int| 0 <= i < j < f.len() ==> (#[trigger] f[i]).spec_end() <= (
        #[trigger] f[j]).spec_start()
    }
}

/// Why a command schema could not be built.
#[derive(Debug, Clone, Copy, PartialEq, Eq, Structural)]
pub enum SchemaError {
    /// A raw parameter stands before another parameter.
    TrailerNotLast,
}

fn field_of(t: ParamType, at: usize) -> (r: NumericField)
    requires
        t != ParamType::Raw,
        at + 64 <= usize::MAX,
    ensures
        r == field_for(t, at),
        r.wf(),
        r.spec_start() == at,
        r.spec_end() == at + param_width(t),
{
    match t {
        ParamType::Int8 => NumericField::Integral(
            GenericIntegralField::I8(IntegralField { start: at, end: at + 8 }),
        ),
        ParamType::Int16 => NumericField::Integral(
            GenericIntegralField::I16(IntegralField { start: at, end: at + 16 }),
        ),
        ParamType::Int32 => NumericField::Integral(
            GenericIntegralField::I32(IntegralField { start: at, end: at + 32 }),
        ),
        ParamType::Uint8 => NumericField::Integral(
            GenericIntegralField::U8(IntegralField { start: at, end: at + 8 }),
        ),
        ParamType::Uint16 => NumericField::Integral(
            GenericIntegralField::U16(IntegralField { start: at, end: at + 16 }),
        ),
        ParamType::Uint32 => NumericField::Integral(
            GenericIntegralField::U32(IntegralField { start: at, end: at + 32 }),
        ),
        ParamType::Float => NumericField::Floating(
            GenericFloatingField::F32(FloatingField { start: at, end: at + 32 }),
        ),
        _ => NumericField::Floating(
            GenericFloatingField::F64(FloatingField { start: at, end: at + 64 }),
        ),
    }
}

proof fn lemma_bit_offset_mono(p: Seq<ParamType>, i: int, j: int)
    requires
        0 <= i <= j <= p.len(),
    ensures
        bit_offset(p, i) <= bit_offset(p, j),
        i < j ==> bit_offset(p, i) + param_width(p[i]) <= bit_offset(p, j),
    decreases j - i,
{
    if i < j {
        lemma_bit_offset_mono(p, i, j - 1);
    }
}

proof fn lemma_bit_offset_bound(p: Seq<ParamType>, i: int)
    requires
        0 <= i <= p.len(),
    ensures
        bit_offset(p, i) <= 64 * i,
    decreases i,
{
    if i > 0 {
        lemma_bit_offset_bound(p, i - 1);
    }
}

/// Any raw parameter is the last one.
pub open spec fn raw_last(p: Seq<ParamType>) -> bool {
    first_raw(p, 0) >= p.len() - 1
}

/// `s` lays the parameters `p` out one after another from bit 0, up to the
/// first raw parameter, which marks a trailer.
pub open spec fn schema_from_params(s: CommandSchema, p: Seq<ParamType>) -> bool {
    let k = first_raw(p, 0);
    &&& s.wf()
    &&& s.has_trailer_parameter == (k < p.len())
    &&& s.sized_parameters@.len() == k
    &&& forall|i: int| 0 <= i < k ==> #[trigger] s.sized_parameters@[i] == field_for(
        p[i],
        bit_offset(p, i) as usize,
    )
    &&& s.static_size == byte_len_of(bit_offset(p, k))
}

/// Lays the parameters out one after another; a raw parameter ends the
/// slots and marks a trailer, and must be the last.
pub fn build_schema(params: &Vec<ParamType>) -> (r: Result<CommandSchema, SchemaError>)
    requires
        64 * params@.len() + 64 <= usize::MAX,
    ensures
        r is Ok <==> raw_last(params@),
        r matches Ok(s) ==> schema_from_params(s, params@),
{
    let mut sized_parameters: Vec<NumericField> = Vec::new();
    let mut bits: usize = 0;
    let mut i: usize = 0;
    while i < params.len() && params[i] != ParamType::Raw
        invariant
            64 * params@.len() + 64 <= usize::MAX,
            i <= params@.len(),
            forall|j: int| 0 <= j < i ==> params@[j] != ParamType::Raw,
            first_raw(params@, 0) == first_raw(params@, i as int),
            bits == bit_offset(params@, i as int),
            sized_parameters@.len() == i,
            forall|j: int| 0 <= j < i ==> #[trigger] sized_parameters@[j] == field_for(
                params@[j],
                bit_offset(params@, j) as usize,
            ),
        decreases params.len() - i,
    {
        proof {
            lemma_bit_offset_bound(params@, i as int);
        }
        let field = field_of(params[i], bits);
        sized_parameters.push(field);
        bits = field.last_bit_exclusive();
        i = i + 1;
    }
    let k = i;
    let has_trailer_parameter = i < params.len();
    proof {
        if !has_trailer_parameter {
            assert(first_raw(params@, k as int) == params@.len());
        } else {
            assert(first_raw(params@, k as int) == k);
        }
    }
    if has_trailer_parameter && i + 1 < params.len() {
        return Err(SchemaError::TrailerNotLast);
    }
    let static_size = if bits == 0 {
        0
    } else {
        (bits - 1) / 8 + 1
    };
    let schema = CommandSchema { sized_parameters, static_size, has_trailer_parameter };
    proof {
        let p = params@;
        let f = schema.sized_parameters@;
        assert forall|j: int| 0 <= j < f.len() implies (#[trigger] f[j]).wf() && f[j].spec_end() <= 8
            * static_size by {
            lemma_bit_offset_mono(p, j, k as int);
            lemma_bit_offset_bound(p, j);
            assert(p[j] != ParamType::Raw);
        }
        assert forall|a: int, b: int| 0 <= a < b < f.len() implies (#[trigger] f[a]).spec_end() <= (
        #[trigger] f[b]).spec_start() by {
            lemma_bit_offset_mono(p, a, b);
            lemma_bit_offset_bound(p, b);
            lemma_bit_offset_bound(p, a);
            assert(p[a] != ParamType::Raw);
            assert(p[b] != ParamType::Raw);
        }
    }
    Ok(schema)
}

/// The value of a command parameter.
#[derive(Debug)]
pub enum ParamValue {
    Integer(i64),
    /// The bit pattern of a floating value, in the width of its slot.
    Floating(FloatingValue),
    Bytes(Vec<u8>),
}

/// Why the parameters could not be written.
#[derive(Debug, Clone, Copy, PartialEq, Eq, Structural)]
pub enum WriteError {
    /// There are more numeric parameters than slots.
    AllFieldsWritten,
    /// A value does not fit its slot, or the slot does not fit the buffer.
    Field(FieldError),
    /// Raw bytes were given for a command without a trailer parameter.
    NoTrailer,
    /// Some slots have not been written.
    Incomplete,
    /// The trailer does not fit the buffer.
    TrailerTooLong,
}

pub open spec fn numeric_of(v: ParamValue) -> NumericValue {
    match v {
        ParamValue::Integer(i) => NumericValue::Integral(IntegralValue::I64(i)),
        ParamValue::Floating(f) => NumericValue::Floating(f),
        ParamValue::Bytes(_) => NumericValue::Integral(IntegralValue::I64(0)),
    }
}

/// What writing the parameters from `i` on gives: the total length, or the
/// error.
pub open spec fn write_outcome(
    s: CommandSchema,
    buf_len: nat,
    p: Seq<ParamValue>,
    i: nat,
) -> Result<nat, WriteError>
    decreases p.len() - i,
{
    let f = s.sized_parameters@;
    if i >= p.len() {
        if i < f.len() {
            Err(WriteError::Incomplete)
        } else {
            Ok(s.static_size as nat)
        }
    } else {
        match p[i as int] {
            ParamValue::Bytes(b) => if !s.has_trailer_parameter {
                Err(WriteError::NoTrailer)
            } else if i < f.len() {
                Err(WriteError::Incomplete)
            } else if s.static_size + b@.len() > buf_len {
                Err(WriteError::TrailerTooLong)
            } else {
                Ok((s.static_size + b@.len()) as nat)
            },
            v => if i >= f.len() {
                Err(WriteError::AllFieldsWritten)
            } else if !f[i as int].spec_accepts(numeric_of(v)) {
                Err(WriteError::Field(FieldError::NotRepresentable))
            } else if f[i as int].spec_end() > 8 * buf_len {
                Err(WriteError::Field(FieldError::OutOfRange))
            } else {
                write_outcome(s, buf_len, p, i + 1)
            },
        }
    }
}

/// A successful write ends within the buffer where the slots do.
pub proof fn lemma_outcome_within(s: CommandSchema, buf_len: nat, p: Seq<ParamValue>, i: nat)
    requires
        s.static_size <= buf_len,
        write_outcome(s, buf_len, p, i) is Ok,
    ensures
        write_outcome(s, buf_len, p, i)->Ok_0 <= buf_len,
        write_outcome(s, buf_len, p, i)->Ok_0 >= s.static_size,
    decreases p.len() - i,
{
    if i < p.len() {
        match p[i as int] {
            ParamValue::Bytes(_) => {},
            _ => {
                lemma_outcome_within(s, buf_len, p, i + 1);
            },
        }
    }
}

/// The raw bytes that end the parameters, where there are some.
pub open spec fn trailer_of(p: Seq<ParamValue>, n: nat) -> Option<Seq<u8>> {
    if n < p.len() {
        match p[n as int] {
            ParamValue::Bytes(b) => Some(b@),
            _ => None,
        }
    } else {
        None
    }
}

/// Writes command parameter values into the slots of a schema, in order.
pub struct Writer<'a> {
    schema: &'a CommandSchema,
    next: usize,
    bytes: Vec<u8>,
}

impl<'a> Writer<'a> {
    pub closed spec fn spec_schema(&self) -> &'a CommandSchema {
        self.schema
    }

    pub closed spec fn spec_next(&self) -> nat {
        self.next as nat
    }

    pub closed spec fn spec_bytes(&self) -> Seq<u8> {
        self.bytes@
    }

    pub fn new(schema: &'a CommandSchema, bytes: Vec<u8>) -> (r: Writer<'a>)
        ensures
            r.spec_schema() == schema,
            r.spec_next() == 0,
            r.spec_bytes() == bytes@,
    {
        Writer { schema, next: 0, bytes }
    }

    /// Writes `value` into the next slot; the slot is used up even where
    /// the value is refused, and a refused value leaves the bytes as they
    /// were.
    pub fn write(&mut self, value: NumericValue) -> (r: Result<(), WriteError>)
        requires
            old(self).spec_schema().wf(),
            old(self).spec_next() <= old(self).spec_schema().sized_parameters@.len(),
        ensures
            final(self).spec_schema() == old(self).spec_schema(),
            final(self).spec_bytes().len() == old(self).spec_bytes().len(),
            final(self).spec_next() <= final(self).spec_schema().sized_parameters@.len(),
            ({
                let f = old(self).spec_schema().sized_parameters@;
                let i = old(self).spec_next() as int;
                if i >= f.len() {
                    r == Err::<(), WriteError>(WriteError::AllFieldsWritten) && *final(self) == *old(self)
                } else if !f[i].spec_accepts(value) {
                    &&& r == Err::<(), WriteError>(WriteError::Field(FieldError::NotRepresentable))
                    &&& final(self).spec_next() == i + 1
                    &&& final(self).spec_bytes() == old(self).spec_bytes()
                } else if f[i].spec_end() > 8 * old(self).spec_bytes().len() {
                    &&& r == Err::<(), WriteError>(WriteError::Field(FieldError::OutOfRange))
                    &&& final(self).spec_next() == i + 1
                    &&& final(self).spec_bytes() == old(self).spec_bytes()
                } else {
                    &&& r is Ok
                    &&& final(self).spec_next() == i + 1
                    &&& f[i].spec_holds(final(self).spec_bytes(), value)
                    &&& same_outside(
                        old(self).spec_bytes(),
                        final(self).spec_bytes(),
                        f[i].spec_start() as int,
                        f[i].spec_end() as int,
                    )
                }
            }),
    {
        if self.next >= self.schema.sized_parameters.len() {
            return Err(WriteError::AllFieldsWritten);
        }
        let field = self.schema.sized_parameters[self.next];
        self.next = self.next + 1;
        match field.write(&mut self.bytes, value) {
            Ok(()) => Ok(()),
            Err(e) => {
                proof {
                    if field.spec_accepts(value) {
                        assert(field.spec_end() > 8 * old(self).spec_bytes().len());
                    }
                }
                Err(WriteError::Field(e))
            },
        }
    }

    /// Fails where some slot has not been written.
    fn verify_completion(&self) -> (r: Result<(), WriteError>)
        ensures
            r is Ok <==> self.spec_next() >= self.spec_schema().sized_parameters@.len(),
            r is Err ==> r == Err::<(), WriteError>(WriteError::Incomplete),
    {
        if self.next < self.schema.sized_parameters.len() {
            Err(WriteError::Incomplete)
        } else {
            Ok(())
        }
    }

    /// Copies the raw trailer after the slots; returns the buffer and the
    /// total length.
    pub fn write_trailer_and_finish(self, trailer: &[u8]) -> (r: Result<(Vec<u8>, usize), WriteError>)
        requires
            self.spec_schema().wf(),
        ensures
            ({
                let s = self.spec_schema();
                let n = s.static_size as int;
                if !s.has_trailer_parameter {
                    r == Err::<(Vec<u8>, usize), WriteError>(WriteError::NoTrailer)
                } else if self.spec_next() < s.sized_parameters@.len() {
                    r == Err::<(Vec<u8>, usize), WriteError>(WriteError::Incomplete)
                } else if n + trailer@.len() > self.spec_bytes().len() {
                    r == Err::<(Vec<u8>, usize), WriteError>(WriteError::TrailerTooLong)
                } else {
                    r matches Ok((b, len)) && len == n + trailer@.len() && b@.len()
                        == self.spec_bytes().len() && b@.subrange(0, n) == self.spec_bytes().subrange(0, n)
                        && b@.subrange(n, len as int) == trailer@
                }
            }),
    {
        if !self.schema.has_trailer_parameter {
            return Err(WriteError::NoTrailer);
        }
        if self.verify_completion().is_err() {
            return Err(WriteError::Incomplete);
        }
        let start = self.schema.static_size;
        if trailer.len() > self.bytes.len() || start > self.bytes.len() - trailer.len() {
            return Err(WriteError::TrailerTooLong);
        }
        let mut bytes = self.bytes;
        let ghost b0 = bytes@;
        let mut i: usize = 0;
        assert(bytes@.len() == bytes.len());
        while i < trailer.len()
            invariant
                bytes@.len() <= usize::MAX,
                i <= trailer@.len(),
                start + trailer@.len() <= bytes@.len(),
                bytes@.len() == b0.len(),
                bytes@.subrange(0, start as int) == b0.subrange(0, start as int),
                bytes@.subrange(start as int, start + i) == trailer@.subrange(0, i as int),
            decreases trailer.len() - i,
        {
            let ghost before = bytes@;
            bytes.set(start + i, trailer[i]);
            proof {
                assert(bytes@.subrange(0, start as int) =~= before.subrange(0, start as int));
                assert(bytes@.subrange(start as int, start + i + 1) =~= trailer@.subrange(0, i + 1)) by {
                    assert(before.subrange(start as int, start + i) == trailer@.subrange(0, i as int));
                    assert forall|k: int| 0 <= k < i implies bytes@[start + k] == trailer@[k] by {
                        assert(before.subrange(start as int, start + i)[k] == trailer@.subrange(0, i as int)[k]);
                    }
                }
            }
            i = i + 1;
        }
        assert(trailer@.subrange(0, trailer@.len() as int) =~= trailer@);
        Ok((bytes, start + trailer.len()))
    }

    /// Ends a command without a trailer; returns the buffer and the static
    /// length.
    pub fn finish(self) -> (r: Result<(Vec<u8>, usize), WriteError>)
        ensures
            r is Ok <==> self.spec_next() >= self.spec_schema().sized_parameters@.len(),
            r is Err ==> r == Err::<(Vec<u8>, usize), WriteError>(WriteError::Incomplete),
            r matches Ok((b, len)) ==> b@ == self.spec_bytes() && len == self.spec_schema().static_size,
    {
        if self.verify_completion().is_err() {
            return Err(WriteError::Incomplete);
        }
        Ok((self.bytes, self.schema.static_size))
    }
}

proof fn lemma_hold_kept_prefix(f: NumericField, b1: Seq<u8>, b2: Seq<u8>, v: NumericValue, n: int)
    requires
        f.spec_holds(b1, v),
        f.spec_end() <= 8 * n,
        0 <= n <= b1.len(),
        b2.len() == b1.len(),
        b2.subrange(0, n) == b1.subrange(0, n),
    ensures
        f.spec_holds(b2, v),
{
    let raw = match v {
        NumericValue::Integral(x) => crate::field::raw_of(x.spec_int()),
        NumericValue::Floating(x) => crate::field::spec_floating_bits(x) as int,
    };
    assert forall|j: int| f.spec_start() <= j < f.spec_end() implies #[trigger] bit_at(b2, j)
        == bit_at(b1, j) by {
        let k = j / 8;
        assert(0 <= k < n);
        assert(b2.subrange(0, n)[k] == b2[k]);
        assert(b1.subrange(0, n)[k] == b1[k]);
        assert(b2[k] == b1[k]);
    }
    assert(bits_hold(b1, f.spec_start() as int, f.spec_end() as int, raw));
    assert forall|j: int| f.spec_start() <= j < f.spec_end() implies #[trigger] bit_at(b2, j)
        == crate::bits::nth_bit(raw, f.spec_end() - 1 - j) by {
        assert(bit_at(b1, j) == crate::bits::nth_bit(raw, f.spec_end() - 1 - j));
    }
}

/// Packs parameter values into the slots of `schema` in order. Raw bytes
/// end the parameters: they go right after the slots. Returns the buffer and
/// the length of the user data.
pub fn write_all(schema: &CommandSchema, bytes: Vec<u8>, parameters: &Vec<ParamValue>) -> (r: Result<
    (Vec<u8>, usize),
    WriteError,
>)
    requires
        schema.wf(),
    ensures
        r is Ok <==> write_outcome(*schema, bytes@.len(), parameters@, 0) is Ok,
        r matches Err(e) ==> write_outcome(*schema, bytes@.len(), parameters@, 0) == Err::<nat, WriteError>(e),
        r matches Ok((b, n)) ==> write_outcome(*schema, bytes@.len(), parameters@, 0) == Ok::<nat, WriteError>(n as nat),
        r matches Ok((b, n)) ==> b@.len() == bytes@.len(),
        r matches Ok((b, n)) ==> forall|i: int| 0 <= i < schema.sized_parameters@.len() ==> (#[trigger] schema.sized_parameters@[i]).spec_holds(
            b@,
            numeric_of(parameters@[i]),
        ),
        r matches Ok((b, n)) ==> match trailer_of(parameters@, schema.sized_parameters@.len()) {
            Some(t) => b@.subrange(schema.static_size as int, n as int) == t,
            None => n == schema.static_size,
        },
{
    let ghost len0 = bytes@.len();
    let mut writer = Writer::new(schema, bytes);
    let mut i: usize = 0;
    while i < parameters.len()
        invariant
            len0 == bytes@.len(),
            schema.wf(),
            writer.spec_schema() == schema,
            writer.spec_next() == i,
            i <= schema.sized_parameters@.len(),
            i <= parameters@.len(),
            writer.spec_bytes().len() == len0,
            forall|j: int| 0 <= j < i ==> parameters@[j] !is Bytes,
            write_outcome(*schema, len0, parameters@, 0) == write_outcome(
                *schema,
                len0,
                parameters@,
                i as nat,
            ),
            forall|j: int| 0 <= j < i ==> (#[trigger] schema.sized_parameters@[j]).spec_holds(
                writer.spec_bytes(),
                numeric_of(parameters@[j]),
            ),
        decreases parameters.len() - i,
    {
        let value = match &parameters[i] {
            ParamValue::Integer(v) => NumericValue::Integral(IntegralValue::I64(*v)),
            ParamValue::Floating(f) => NumericValue::Floating(*f),
            ParamValue::Bytes(b) => {
                let ghost before = writer.spec_bytes();
                let r = writer.write_trailer_and_finish(b.as_slice());
                proof {
                    assert(b@ == parameters@[i as int]->Bytes_0@);
                    if r is Err {
                        assert(write_outcome(*schema, len0, parameters@, i as nat) == Err::<nat, WriteError>(r->Err_0));
                    }
                    if r is Ok {
                        assert(write_outcome(*schema, len0, parameters@, i as nat) == Ok::<nat, WriteError>(r->Ok_0.1 as nat));
                        let bb = r->Ok_0.0@;
                        assert forall|j: int| 0 <= j < schema.sized_parameters@.len() implies (
                        #[trigger] schema.sized_parameters@[j]).spec_holds(bb, numeric_of(parameters@[j])) by {
                            lemma_hold_kept_prefix(
                                schema.sized_parameters@[j],
                                before,
                                bb,
                                numeric_of(parameters@[j]),
                                schema.static_size as int,
                            );
                        }
                    }
                }
                return r;
            },
        };
        assert(value == numeric_of(parameters@[i as int]));
        let ghost before = writer.spec_bytes();
        match writer.write(value) {
            Ok(()) => {},
            Err(e) => {
                assert(write_outcome(*schema, len0, parameters@, i as nat) == Err::<nat, WriteError>(e));
                return Err(e);
            },
        }
        proof {
            let f = schema.sized_parameters@;
            assert forall|j: int| 0 <= j < i + 1 implies (#[trigger] f[j]).spec_holds(
                writer.spec_bytes(),
                numeric_of(parameters@[j]),
            ) by {
                if j < i {
                    let raw = match numeric_of(parameters@[j]) {
                        NumericValue::Integral(x) => crate::field::raw_of(x.spec_int()),
                        NumericValue::Floating(x) => crate::field::spec_floating_bits(x) as int,
                    };
                    assert(f[j].spec_end() <= f[i as int].spec_start());
                    lemma_bits_hold_kept(
                        before,
                        writer.spec_bytes(),
                        f[j].spec_start() as int,
                        f[j].spec_end() as int,
                        raw,
                        f[i as int].spec_start() as int,
                        f[i as int].spec_end() as int,
                    );
                }
            }
        }
        i = i + 1;
    }
    writer.finish()
}

} // verus!
