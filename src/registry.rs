use vstd::prelude::*;
use vstd::string::StringExecFns;

use crate::field::FieldError;
use crate::names::str_eq;
use crate::satconfig::TelemetryChannel;
use crate::tlm::{
    floating_reading, integral_read_ok, integral_reading, FieldSchema, FieldValue, FieldValueSchema,
    FloatingFieldSchema, IntegralConversion, IntegralFieldSchema,
};
use crate::tmiv::Tmiv;

verus! {

/// How a TMIV field is typed.
#[derive(Debug, Clone, Copy, PartialEq, Eq, Structural)]
pub enum DataType {
    Integer,
    Double,
    Enum,
    Bytes,
}

/// The names under which a telemetry field appears in a TMIV.
#[derive(Debug, Clone)]
pub struct FieldMetadata {
    pub order: usize,
    pub original_name: String,
    pub converted_name: String,
    pub raw_name: String,
    pub description: String,
    pub data_type: DataType,
}

/// The fields of one telemetry packet.
pub struct TelemetrySchema {
    pub integral_fields: Vec<(FieldMetadata, IntegralFieldSchema)>,
    pub floating_fields: Vec<(FieldMetadata, FloatingFieldSchema)>,
}

impl TelemetrySchema {
    pub open spec fn wf(&self) -> bool {
        &&& forall|i: int| 0 <= i < self.integral_fields@.len() ==> (#[trigger] self.integral_fields@[i]).1.field.wf()
        &&& forall|i: int| 0 <= i < self.floating_fields@.len() ==> (#[trigger] self.floating_fields@[i]).1.field.wf()
    }
}

/// `name@RAW`: the TMIV name of a field's raw bytes.
pub open spec fn raw_name_of(name: Seq<char>) -> Seq<char> {
    name + seq!['@', 'R', 'A', 'W']
}

/// `name` followed by `@RAW`.
fn with_raw_suffix(name: &str) -> (r: String)
    ensures
        r@ == raw_name_of(name@),
{
    proof {
        reveal_strlit("@RAW");
    }
    let r = name.to_owned().concat("@RAW");
    assert(r@ =~= raw_name_of(name@));
    r
}

/// The names and type under which field number `order`, named `name` in
/// the database, appears in a TMIV.
pub fn build_field_metadata(order: usize, name: &str, description: &str, data_type: DataType) -> (r: FieldMetadata)
    ensures
        r.order == order,
        r.original_name@ == name@,
        r.converted_name@ == name@,
        r.raw_name@ == raw_name_of(name@),
        r.description@ == description@,
        r.data_type == data_type,
{
    FieldMetadata {
        order,
        original_name: name.to_owned(),
        converted_name: name.to_owned(),
        raw_name: with_raw_suffix(name),
        description: description.to_owned(),
        data_type,
    }
}

/// The TMIV type of a field's converted value.
pub open spec fn converted_type(v: FieldValueSchema) -> DataType {
    match v {
        FieldValueSchema::Integral(s) => match s.converter {
            IntegralConversion::Polynomial => DataType::Double,
            IntegralConversion::Status(_) => DataType::Enum,
            IntegralConversion::Unconverted => DataType::Integer,
        },
        FieldValueSchema::Floating(_) => DataType::Double,
    }
}

/// Entry `e` of a telemetry schema stands for field `f`, numbered `order`.
pub open spec fn entry_for(m: FieldMetadata, order: usize, f: (String, FieldSchema)) -> bool {
    &&& m.order == order
    &&& m.converted_name@ == f.0@
    &&& m.raw_name@ == raw_name_of(f.0@)
    &&& m.description@ == f.1.metadata.description@
    &&& m.data_type == converted_type(f.1.value)
}

/// `r` splits the named field schemas `fields` into integer and floating
/// fields, each entry standing for the field its `order` names, with its
/// TMIV names; both lists keep database order and together hold every field.
pub open spec fn schema_from_fields(r: TelemetrySchema, fields: Seq<(String, FieldSchema)>) -> bool {
    &&& r.integral_fields@.len() + r.floating_fields@.len() == fields.len()
    &&& forall|k: int| 0 <= k < r.integral_fields@.len() ==> {
        let (m, s) = #[trigger] r.integral_fields@[k];
        &&& m.order < fields.len()
        &&& entry_for(m, m.order, fields[m.order as int])
        &&& fields[m.order as int].1.value == FieldValueSchema::Integral(s)
    }
    &&& forall|k: int| 0 <= k < r.floating_fields@.len() ==> {
        let (m, s) = #[trigger] r.floating_fields@[k];
        &&& m.order < fields.len()
        &&& entry_for(m, m.order, fields[m.order as int])
        &&& fields[m.order as int].1.value == FieldValueSchema::Floating(s)
    }
    &&& forall|a: int, b: int| 0 <= a < b < r.integral_fields@.len() ==> (#[trigger] r.integral_fields@[a]).0.order
        < (#[trigger] r.integral_fields@[b]).0.order
    &&& forall|a: int, b: int| 0 <= a < b < r.floating_fields@.len() ==> (#[trigger] r.floating_fields@[a]).0.order
        < (#[trigger] r.floating_fields@[b]).0.order
}

/// Splits named field schemas, in database order, into integer and
/// floating fields, each with its TMIV names; both lists keep the order.
pub fn build_telemetry_schema(fields: Vec<(String, FieldSchema)>) -> (r: TelemetrySchema)
    ensures
        schema_from_fields(r, fields@),
{
    let ghost f0 = fields@;
    let mut rest = fields;
    let mut integral_fields: Vec<(FieldMetadata, IntegralFieldSchema)> = Vec::new();
    let mut floating_fields: Vec<(FieldMetadata, FloatingFieldSchema)> = Vec::new();
    let mut order: usize = 0;
    assert(f0.skip(0) =~= f0);
    assert(f0.len() == rest.len());
    while rest.len() > 0
        invariant
            f0.len() <= usize::MAX,
            order + rest@.len() == f0.len(),
            rest@ == f0.skip(order as int),
            integral_fields@.len() + floating_fields@.len() == order,
            forall|k: int| 0 <= k < integral_fields@.len() ==> {
                let (m, s) = #[trigger] integral_fields@[k];
                &&& m.order < order
                &&& entry_for(m, m.order, f0[m.order as int])
                &&& f0[m.order as int].1.value == FieldValueSchema::Integral(s)
            },
            forall|k: int| 0 <= k < floating_fields@.len() ==> {
                let (m, s) = #[trigger] floating_fields@[k];
                &&& m.order < order
                &&& entry_for(m, m.order, f0[m.order as int])
                &&& f0[m.order as int].1.value == FieldValueSchema::Floating(s)
            },
            forall|a: int, b: int| 0 <= a < b < integral_fields@.len() ==> (#[trigger] integral_fields@[a]).0.order
                < (#[trigger] integral_fields@[b]).0.order,
            forall|a: int, b: int| 0 <= a < b < floating_fields@.len() ==> (#[trigger] floating_fields@[a]).0.order
                < (#[trigger] floating_fields@[b]).0.order,
        decreases rest.len(),
    {
        let (name, field_schema) = rest.remove(0);
        proof {
            assert(f0[order as int] == (name, field_schema));
            assert(rest@ =~= f0.skip(order + 1));
        }
        let data_type = match &field_schema.value {
            FieldValueSchema::Integral(s) => match s.converter {
                IntegralConversion::Polynomial => DataType::Double,
                IntegralConversion::Status(_) => DataType::Enum,
                IntegralConversion::Unconverted => DataType::Integer,
            },
            FieldValueSchema::Floating(_) => DataType::Double,
        };
        let metadata = build_field_metadata(
            order,
            name.as_str(),
            field_schema.metadata.description.as_str(),
            data_type,
        );
        match field_schema.value {
            FieldValueSchema::Integral(s) => {
                integral_fields.push((metadata, s));
            },
            FieldValueSchema::Floating(s) => {
                floating_fields.push((metadata, s));
            },
        }
        order = order + 1;
    }
    TelemetrySchema { integral_fields, floating_fields }
}

/// A telemetry schema with the component and telemetry it belongs to.
pub struct FatTelemetrySchema {
    pub component: String,
    pub telemetry: String,
    pub schema: TelemetrySchema,
}

/// The three parts of a TMIV name.
pub struct TmivName {
    pub channel: String,
    pub component: String,
    pub telemetry: String,
}

/// `a.b.c`.
pub open spec fn dotted(a: Seq<char>, b: Seq<char>, c: Seq<char>) -> Seq<char> {
    a + seq!['.'] + b + seq!['.'] + c
}

/// The three strings joined by dots.
fn join_dotted(a: &str, b: &str, c: &str) -> (r: String)
    ensures
        r@ == dotted(a@, b@, c@),
{
    proof {
        reveal_strlit(".");
    }
    let r = a.to_owned().concat(".").concat(b).concat(".").concat(c);
    assert(r@ =~= dotted(a@, b@, c@));
    r
}

impl TmivName {
    /// `channel.component.telemetry`.
    pub fn to_name_string(&self) -> (r: String)
        ensures
            r@ == dotted(self.channel@, self.component@, self.telemetry@),
    {
        join_dotted(self.channel.as_str(), self.component.as_str(), self.telemetry.as_str())
    }
}

impl FatTelemetrySchema {
    /// The name of this telemetry on `channel`.
    pub fn build_tmiv_name(&self, channel: &str) -> (r: TmivName)
        ensures
            r.channel@ == channel@,
            r.component@ == self.component@,
            r.telemetry@ == self.telemetry@,
    {
        TmivName {
            channel: channel.to_owned(),
            component: self.component.clone(),
            telemetry: self.telemetry.clone(),
        }
    }
}

/// Channel `c` takes telemetry with destination flags `flags`.
pub open spec fn channel_matches(c: TelemetryChannel, flags: u8) -> bool {
    c.destination_flag_mask & flags != 0
}

/// The channels among `chs` that take telemetry with `flags`, in order.
pub open spec fn matching_channels(chs: Seq<(String, TelemetryChannel)>, flags: u8) -> Seq<Seq<char>>
    decreases chs.len(),
{
    if chs.len() == 0 {
        Seq::empty()
    } else {
        let rest = matching_channels(chs.drop_last(), flags);
        if channel_matches(chs.last().1, flags) {
            rest.push(chs.last().0@)
        } else {
            rest
        }
    }
}

/// The names of the channels whose mask shares a bit with `flags`: the
/// channels that one TMIV each is emitted on.
pub fn find_channels(channels: &Vec<(String, TelemetryChannel)>, flags: u8) -> (r: Vec<String>)
    ensures
        r@.map_values(|s: String| s@) == matching_channels(channels@, flags),
{
    let mut out: Vec<String> = Vec::new();
    let mut i: usize = 0;
    while i < channels.len()
        invariant
            i <= channels@.len(),
            out@.map_values(|s: String| s@) == matching_channels(channels@.take(i as int), flags),
        decreases channels.len() - i,
    {
        let ghost before = out@;
        proof {
            assert(channels@.take(i + 1).drop_last() =~= channels@.take(i as int));
            assert(channels@.take(i + 1).last() == channels@[i as int]);
        }
        if channels[i].1.destination_flag_mask & flags != 0 {
            let name = channels[i].0.clone();
            out.push(name);
            proof {
                assert(out@.map_values(|s: String| s@) =~= before.map_values(|s: String| s@).push(
                    channels@[i as int].0@,
                ));
            }
        }
        i = i + 1;
    }
    assert(channels@.take(i as int) =~= channels@);
    out
}

/// One telemetry field as read from a packet: its raw bytes and its
/// converted value, under their TMIV names.
pub struct FieldReading {
    pub raw_name: String,
    pub raw: Vec<u8>,
    pub converted_name: String,
    pub converted: FieldValue,
}

/// Every field of `s` can be read from the packet `b`.
pub open spec fn fields_readable(s: TelemetrySchema, b: Seq<u8>) -> bool {
    &&& forall|k: int| 0 <= k < s.integral_fields@.len() ==> integral_read_ok(
        (#[trigger] s.integral_fields@[k]).1,
        b,
    )
    &&& forall|k: int| 0 <= k < s.floating_fields@.len() ==> (#[trigger] s.floating_fields@[k]).1.field.spec_field().end
        <= 8 * b.len()
}

/// From position `at` on, `f` holds one reading per field of `s` read from
/// `b`: the integer fields, then the floating ones, in schema order, under
/// their TMIV names.
pub open spec fn readings_at(s: TelemetrySchema, b: Seq<u8>, f: Seq<FieldReading>, at: int) -> bool {
    let ni = s.integral_fields@.len() as int;
    &&& f.len() == at + ni + s.floating_fields@.len()
    &&& forall|k: int| 0 <= k < ni ==> {
        let (m, fs) = #[trigger] s.integral_fields@[k];
        let x = f[at + k];
        &&& integral_reading(fs, b, x.raw@, x.converted)
        &&& x.raw_name@ == m.raw_name@ && x.converted_name@ == m.converted_name@
    }
    &&& forall|k: int| 0 <= k < s.floating_fields@.len() ==> {
        let (m, fs) = #[trigger] s.floating_fields@[k];
        let x = f[at + ni + k];
        &&& floating_reading(fs, b, x.raw@, x.converted)
        &&& x.raw_name@ == m.raw_name@ && x.converted_name@ == m.converted_name@
    }
}

/// Reads the fields of a telemetry packet.
pub struct FieldsBuilder<'a> {
    schema: &'a TelemetrySchema,
}

impl<'a> FieldsBuilder<'a> {
    pub closed spec fn spec_schema(&self) -> &'a TelemetrySchema {
        self.schema
    }

    pub fn new(schema: &'a TelemetrySchema) -> (r: FieldsBuilder<'a>)
        ensures
            r.spec_schema() == schema,
    {
        FieldsBuilder { schema }
    }

    fn build_integral_fields(&self, fields: &mut Vec<FieldReading>, bytes: &[u8]) -> (r: Result<(), FieldError>)
        requires
            self.spec_schema().wf(),
        ensures
            r is Ok <==> forall|k: int| 0 <= k < self.spec_schema().integral_fields@.len() ==> integral_read_ok(
                (#[trigger] self.spec_schema().integral_fields@[k]).1,
                bytes@,
            ),
            r is Ok ==> forall|k: int| 0 <= k < self.spec_schema().integral_fields@.len() ==> integral_reading(
                (#[trigger] self.spec_schema().integral_fields@[k]).1,
                bytes@,
                final(fields)@[old(fields)@.len() + k].raw@,
                final(fields)@[old(fields)@.len() + k].converted,
            ),
            r is Ok ==> final(fields)@.len() == old(fields)@.len() + self.spec_schema().integral_fields@.len(),
            r is Ok ==> forall|k: int| 0 <= k < self.spec_schema().integral_fields@.len() ==> {
                let (m, _) = #[trigger] self.spec_schema().integral_fields@[k];
                let f = final(fields)@[old(fields)@.len() + k];
                f.raw_name@ == m.raw_name@ && f.converted_name@ == m.converted_name@
            },
            r is Ok ==> final(fields)@.subrange(0, old(fields)@.len() as int) == old(fields)@,
    {
        let ghost f0 = fields@;
        let mut i: usize = 0;
        while i < self.schema.integral_fields.len()
            invariant
                self.schema.wf(),
                i <= self.schema.integral_fields@.len(),
                fields@.len() == f0.len() + i,
                fields@.subrange(0, f0.len() as int) == f0,
                forall|k: int| 0 <= k < i ==> integral_read_ok((#[trigger] self.schema.integral_fields@[k]).1, bytes@),
                forall|k: int| 0 <= k < i ==> integral_reading(
                    (#[trigger] self.schema.integral_fields@[k]).1,
                    bytes@,
                    fields@[f0.len() + k].raw@,
                    fields@[f0.len() + k].converted,
                ),
                forall|k: int| 0 <= k < i ==> {
                    let (m, _) = #[trigger] self.schema.integral_fields@[k];
                    let f = fields@[f0.len() + k];
                    f.raw_name@ == m.raw_name@ && f.converted_name@ == m.converted_name@
                },
            decreases self.schema.integral_fields.len() - i,
        {
            let (metadata, field_schema) = &self.schema.integral_fields[i];
            assert(field_schema.field.wf());
            let (raw, converted) = match field_schema.read_from(bytes) {
                Ok(x) => x,
                Err(e) => return Err(e),
            };
            let ghost before = fields@;
            fields.push(
                FieldReading {
                    raw_name: metadata.raw_name.clone(),
                    raw,
                    converted_name: metadata.converted_name.clone(),
                    converted,
                },
            );
            proof {
                assert(fields@.subrange(0, f0.len() as int) =~= before.subrange(0, f0.len() as int));
            }
            i = i + 1;
        }
        Ok(())
    }

    fn build_floating_fields(&self, fields: &mut Vec<FieldReading>, bytes: &[u8]) -> (r: Result<(), FieldError>)
        requires
            self.spec_schema().wf(),
        ensures
            r is Ok <==> forall|k: int| 0 <= k < self.spec_schema().floating_fields@.len() ==> (
            #[trigger] self.spec_schema().floating_fields@[k]).1.field.spec_field().end <= 8 * bytes@.len(),
            r is Ok ==> final(fields)@.len() == old(fields)@.len() + self.spec_schema().floating_fields@.len(),
            r is Ok ==> forall|k: int| 0 <= k < self.spec_schema().floating_fields@.len() ==> {
                let (m, _) = #[trigger] self.spec_schema().floating_fields@[k];
                let f = final(fields)@[old(fields)@.len() + k];
                f.raw_name@ == m.raw_name@ && f.converted_name@ == m.converted_name@
            },
            r is Ok ==> forall|k: int| 0 <= k < self.spec_schema().floating_fields@.len() ==> floating_reading(
                (#[trigger] self.spec_schema().floating_fields@[k]).1,
                bytes@,
                final(fields)@[old(fields)@.len() + k].raw@,
                final(fields)@[old(fields)@.len() + k].converted,
            ),
            r is Ok ==> final(fields)@.subrange(0, old(fields)@.len() as int) == old(fields)@,
    {
        let ghost f0 = fields@;
        let mut i: usize = 0;
        while i < self.schema.floating_fields.len()
            invariant
                self.schema.wf(),
                i <= self.schema.floating_fields@.len(),
                fields@.len() == f0.len() + i,
                fields@.subrange(0, f0.len() as int) == f0,
                forall|k: int| 0 <= k < i ==> (#[trigger] self.schema.floating_fields@[k]).1.field.spec_field().end
                    <= 8 * bytes@.len(),
                forall|k: int| 0 <= k < i ==> floating_reading(
                    (#[trigger] self.schema.floating_fields@[k]).1,
                    bytes@,
                    fields@[f0.len() + k].raw@,
                    fields@[f0.len() + k].converted,
                ),
                forall|k: int| 0 <= k < i ==> {
                    let (m, _) = #[trigger] self.schema.floating_fields@[k];
                    let f = fields@[f0.len() + k];
                    f.raw_name@ == m.raw_name@ && f.converted_name@ == m.converted_name@
                },
            decreases self.schema.floating_fields.len() - i,
        {
            let (metadata, field_schema) = &self.schema.floating_fields[i];
            assert(field_schema.field.wf());
            let (raw, converted) = match field_schema.read_from(bytes) {
                Ok(x) => x,
                Err(e) => return Err(e),
            };
            let ghost before = fields@;
            fields.push(
                FieldReading {
                    raw_name: metadata.raw_name.clone(),
                    raw,
                    converted_name: metadata.converted_name.clone(),
                    converted,
                },
            );
            proof {
                assert(fields@.subrange(0, f0.len() as int) =~= before.subrange(0, f0.len() as int));
            }
            i = i + 1;
        }
        Ok(())
    }

    /// Reads every integer field, then every floating field, of the packet
    /// `bytes`, appending one reading per field in schema order.
    pub fn build(&self, fields: &mut Vec<FieldReading>, space_packet_bytes: &[u8]) -> (r: Result<(), FieldError>)
        requires
            self.spec_schema().wf(),
        ensures
            r is Ok <==> fields_readable(*self.spec_schema(), space_packet_bytes@),
            r is Ok ==> readings_at(*self.spec_schema(), space_packet_bytes@, final(fields)@, old(fields)@.len() as int),
            r is Ok ==> final(fields)@.subrange(0, old(fields)@.len() as int) == old(fields)@,
    {
        let ghost f0 = fields@;
        match self.build_integral_fields(fields, space_packet_bytes) {
            Ok(()) => {},
            Err(e) => return Err(e),
        }
        let ghost f1 = fields@;
        match self.build_floating_fields(fields, space_packet_bytes) {
            Ok(()) => {},
            Err(e) => return Err(e),
        }
        proof {
            let n0 = f0.len() as int;
            let n1 = f1.len() as int;
            assert(fields@.subrange(0, n0) =~= f1.subrange(0, n0)) by {
                assert forall|j: int| 0 <= j < n0 implies fields@[j] == f1[j] by {
                    assert(fields@.subrange(0, n1)[j] == f1[j]);
                }
            }
            assert forall|k: int| 0 <= k < self.spec_schema().integral_fields@.len() implies {
                let (m, _) = #[trigger] self.spec_schema().integral_fields@[k];
                let f = fields@[n0 + k];
                &&& f.raw_name@ == m.raw_name@ && f.converted_name@ == m.converted_name@
                &&& integral_reading(self.spec_schema().integral_fields@[k].1, space_packet_bytes@, f.raw@, f.converted)
            } by {
                assert(fields@.subrange(0, n1)[n0 + k] == f1[n0 + k]);
            }
        }
        Ok(())
    }
}

/// Why the last-value store refused a name.
#[derive(Debug, Clone, Copy, PartialEq, Eq, Structural)]
pub enum StoreError {
    /// The name is not a registered TMIV name.
    UnknownName,
}

/// The most recent TMIV under each registered name.
pub struct LastTmivStore {
    entries: Vec<(String, Option<Tmiv>)>,
}

/// The position of `name` among the entries, or their number.
pub open spec fn entry_index(e: Seq<(String, Option<Tmiv>)>, name: Seq<char>, i: int) -> int
    decreases e.len() - i,
{
    if i >= e.len() {
        e.len() as int
    } else if e[i].0@ == name {
        i
    } else {
        entry_index(e, name, i + 1)
    }
}

impl LastTmivStore {
    pub closed spec fn spec_entries(&self) -> Seq<(String, Option<Tmiv>)> {
        self.entries@
    }

    /// A store for the given TMIV names, none received yet.
    pub fn new(names: Vec<String>) -> (r: LastTmivStore)
        ensures
            r.spec_entries().len() == names@.len(),
            forall|i: int| 0 <= i < names@.len() ==> (#[trigger] r.spec_entries()[i]).0 == names@[i]
                && r.spec_entries()[i].1 is None,
    {
        let mut entries: Vec<(String, Option<Tmiv>)> = Vec::new();
        let mut rest = names;
        let ghost s = rest@;
        let mut i: usize = 0;
        assert(s.skip(0) =~= s);
        assert(s.len() == rest.len());
        while rest.len() > 0
            invariant
                s.len() <= usize::MAX,
                i + rest@.len() == s.len(),
                rest@ == s.skip(i as int),
                entries@.len() == i,
                forall|j: int| 0 <= j < i ==> (#[trigger] entries@[j]).0 == s[j] && entries@[j].1 is None,
            decreases rest.len(),
        {
            let name = rest.remove(0);
            proof {
                assert(name == s[i as int]);
                assert(rest@ =~= s.skip(i + 1));
            }
            entries.push((name, None));
            i = i + 1;
        }
        LastTmivStore { entries }
    }

    fn find(&self, name: &str) -> (r: usize)
        ensures
            r == entry_index(self.spec_entries(), name@, 0),
    {
        let mut i: usize = 0;
        while i < self.entries.len()
            invariant
                i <= self.entries@.len(),
                entry_index(self.entries@, name@, 0) == entry_index(self.entries@, name@, i as int),
            decreases self.entries.len() - i,
        {
            if str_eq(self.entries[i].0.as_str(), name) {
                return i;
            }
            i = i + 1;
        }
        i
    }

    /// Keeps `tmiv` as the last one under its name, replacing any earlier.
    pub fn set(&mut self, tmiv: Tmiv) -> (r: Result<(), StoreError>)
        ensures
            ({
                let k = entry_index(old(self).spec_entries(), tmiv.name@, 0);
                if k < old(self).spec_entries().len() {
                    &&& r is Ok
                    &&& final(self).spec_entries() == old(self).spec_entries().update(
                        k,
                        (old(self).spec_entries()[k].0, Some(tmiv)),
                    )
                } else {
                    r == Err::<(), StoreError>(StoreError::UnknownName) && final(self).spec_entries()
                        == old(self).spec_entries()
                }
            }),
    {
        let k = self.find(tmiv.name.as_str());
        if k >= self.entries.len() {
            return Err(StoreError::UnknownName);
        }
        let name = self.entries[k].0.clone();
        self.entries.set(k, (name, Some(tmiv)));
        Ok(())
    }

    /// The last TMIV received under `name`: `None` if none yet, an error if
    /// the name is not registered.
    pub fn get(&self, name: &str) -> (r: Result<Option<&Tmiv>, StoreError>)
        ensures
            ({
                let k = entry_index(self.spec_entries(), name@, 0);
                if k < self.spec_entries().len() {
                    r matches Ok(o) && match self.spec_entries()[k].1 {
                        Some(t) => o == Some(&t),
                        None => o is None,
                    }
                } else {
                    r == Err::<Option<&Tmiv>, StoreError>(StoreError::UnknownName)
                }
            }),
    {
        let k = self.find(name);
        if k >= self.entries.len() {
            return Err(StoreError::UnknownName);
        }
        match &self.entries[k].1 {
            Some(t) => Ok(Some(t)),
            None => Ok(None),
        }
    }
}

} // verus!
