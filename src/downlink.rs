use vstd::prelude::*;
use vstd::slice::slice_subrange;

use crate::aos::{
    spec_next_count, AosPrimaryHeader, AosTransferFrame, FrameCount, Synchronizer,
    AOS_PRIMARY_HEADER_SIZE,
};
use crate::c2a::{TmSecondaryHeader, TM_SECONDARY_HEADER_SIZE};
use crate::clcw::{Clcw, CLCW_SIZE};
use crate::field::FieldError;
use crate::m_pdu::{next_packet_len, push_step, DefragError, Defragmenter};
use crate::names::str_eq;
use crate::registry::{
    build_telemetry_schema, fields_readable, schema_from_fields, find_channels, matching_channels, readings_at, FatTelemetrySchema, FieldReading,
    FieldsBuilder,
};
use crate::tlm::{
    build_bit_range, build_field_schema, field_schema_of, field_schema_wf, FieldExtractionInfo, FieldSchema, FieldSchemaError,
    FieldValueSchema, IntegralConversion, VariableType,
};
use crate::satconfig::TelemetryChannel;
use crate::space_packet::{PrimaryHeader, IDLE_APID, PRIMARY_HEADER_SIZE};

verus! {

/// Telemetry schemata keyed by component and telemetry ID, the component
/// each APID belongs to (several APIDs may share one), and the channels
/// telemetry is fanned out to.
pub struct TelemetryRegistry {
    pub apid_map: Vec<(u16, String)>,
    pub schemas: Vec<((String, u8), FatTelemetrySchema)>,
    pub channels: Vec<(String, TelemetryChannel)>,
}

/// The position of the last entry for `apid` among the first `n`, or the
/// number of entries.
pub open spec fn apid_index(m: Seq<(u16, String)>, apid: u16, n: int) -> int
    decreases n,
{
    if n <= 0 {
        m.len() as int
    } else if m[n - 1].0 == apid {
        n - 1
    } else {
        apid_index(m, apid, n - 1)
    }
}

proof fn lemma_apid_index_bounds(m: Seq<(u16, String)>, apid: u16, n: int)
    requires
        0 <= n <= m.len(),
    ensures
        0 <= apid_index(m, apid, n) <= m.len(),
    decreases n,
{
    if n > 0 && m[n - 1].0 != apid {
        lemma_apid_index_bounds(m, apid, n - 1);
    }
}

/// The position of the schema that telemetry `tlm_id` from `apid` is
/// decoded with, or the number of schemas.
pub open spec fn resolve(r: TelemetryRegistry, apid: u16, tlm_id: u8) -> int {
    let a = apid_index(r.apid_map@, apid, r.apid_map@.len() as int);
    if a >= r.apid_map@.len() {
        r.schemas@.len() as int
    } else {
        schema_index(r.schemas@, r.apid_map@[a].1@, tlm_id, r.schemas@.len() as int)
    }
}

/// The position of the last schema for `component` and `tlm_id` among the
/// first `n`, or the number of schemas: a later entry for a key replaces an
/// earlier one.
pub open spec fn schema_index(s: Seq<((String, u8), FatTelemetrySchema)>, component: Seq<char>, tlm_id: u8, n: int) -> int
    decreases n,
{
    if n <= 0 {
        s.len() as int
    } else if s[n - 1].0.0@ == component && s[n - 1].0.1 == tlm_id {
        n - 1
    } else {
        schema_index(s, component, tlm_id, n - 1)
    }
}

proof fn lemma_schema_index_bounds(s: Seq<((String, u8), FatTelemetrySchema)>, component: Seq<char>, tlm_id: u8, n: int)
    requires
        0 <= n <= s.len(),
    ensures
        0 <= schema_index(s, component, tlm_id, n) <= s.len(),
    decreases n,
{
    if n > 0 && !(s[n - 1].0.0@ == component && s[n - 1].0.1 == tlm_id) {
        lemma_schema_index_bounds(s, component, tlm_id, n - 1);
    }
}

/// The names of every telemetry on `ch`, in schema order.
pub open spec fn names_on_channel(ch: Seq<char>, s: Seq<((String, u8), FatTelemetrySchema)>) -> Seq<Seq<char>> {
    s.map_values(|e: ((String, u8), FatTelemetrySchema)| crate::registry::dotted(ch, e.1.component@, e.1.telemetry@))
}

/// Every TMIV name: each channel with each telemetry, channel by channel.
pub open spec fn all_names(chs: Seq<(String, TelemetryChannel)>, s: Seq<((String, u8), FatTelemetrySchema)>) -> Seq<
    Seq<char>,
>
    decreases chs.len(),
{
    if chs.len() == 0 {
        Seq::empty()
    } else {
        all_names(chs.drop_last(), s) + names_on_channel(chs.last().0@, s)
    }
}

proof fn lemma_resolve_bounds(r: TelemetryRegistry, apid: u16, tlm_id: u8)
    ensures
        0 <= resolve(r, apid, tlm_id) <= r.schemas@.len(),
{
    lemma_apid_index_bounds(r.apid_map@, apid, r.apid_map@.len() as int);
    let a = apid_index(r.apid_map@, apid, r.apid_map@.len() as int);
    if a < r.apid_map@.len() {
        lemma_schema_index_bounds(r.schemas@, r.apid_map@[a].1@, tlm_id, r.schemas@.len() as int);
    }
}

impl TelemetryRegistry {
    /// A registry with no telemetry yet, with the APIDs of each component,
    /// fanning out to `channels`.
    pub fn new(apid_map: Vec<(u16, String)>, channels: Vec<(String, TelemetryChannel)>) -> (r: TelemetryRegistry)
        ensures
            r.wf(),
            r.schemas@.len() == 0,
            r.apid_map@ == apid_map@,
            r.channels@ == channels@,
    {
        TelemetryRegistry { apid_map, schemas: Vec::new(), channels }
    }

    /// Registers a telemetry of the database under its component: each
    /// field's schema is built from its type, conversion and position.
    pub fn insert(&mut self, telemetry: DbTelemetry) -> (r: Result<(), RegistryBuildError>)
        requires
            old(self).wf(),
        ensures
            final(self).wf(),
            final(self).channels@ == old(self).channels@,
            final(self).apid_map@ == old(self).apid_map@,
            r is Err ==> final(self).schemas@ == old(self).schemas@,
            r is Ok <==> forall|i: int| 0 <= i < telemetry.fields@.len() ==> db_field_result(
                #[trigger] telemetry.fields@[i],
            ) is Ok,
            r matches Err(e) ==> exists|i: int| 0 <= i < telemetry.fields@.len() && db_field_result(
                #[trigger] telemetry.fields@[i],
            ) == Err::<FieldSchema, RegistryBuildError>(e),
            r is Ok ==> {
                &&& final(self).schemas@.len() == old(self).schemas@.len() + 1
                &&& final(self).schemas@.drop_last() == old(self).schemas@
                &&& final(self).schemas@.last().0 == (telemetry.component, telemetry.packet_id)
                &&& final(self).schemas@.last().1.component == telemetry.component
                &&& final(self).schemas@.last().1.telemetry == telemetry.name
                &&& schema_from_fields(final(self).schemas@.last().1.schema, db_fields_schemas(telemetry.fields@))
            },
    {
        let DbTelemetry { component, name, packet_id, fields } = telemetry;
        let ghost f0 = fields@;
        let mut rest = fields;
        let mut built: Vec<(String, FieldSchema)> = Vec::new();
        assert(f0.len() == rest.len());
        assert(f0.skip(0) =~= f0);
        assert(f0.take(0) =~= Seq::<DbField>::empty());
        assert(db_fields_schemas(Seq::<DbField>::empty()) =~= Seq::<(String, FieldSchema)>::empty());
        while rest.len() > 0
            invariant
                old(self).wf(),
                self.schemas@ == old(self).schemas@,
                self.channels@ == old(self).channels@,
                self.apid_map@ == old(self).apid_map@,
                f0.len() <= usize::MAX,
                built@.len() + rest@.len() == f0.len(),
                rest@ == f0.skip(built@.len() as int),
                f0 == telemetry.fields@,
                built@ == db_fields_schemas(f0.take(built@.len() as int)),
                forall|j: int| 0 <= j < built@.len() ==> db_field_result(#[trigger] f0[j]) is Ok,
                forall|j: int| 0 <= j < built@.len() ==> field_schema_wf((#[trigger] built@[j]).1),
            decreases rest.len(),
        {
            let ghost n = built@.len() as int;
            let field = rest.remove(0);
            proof {
                assert(field == f0[n]);
                assert(rest@ =~= f0.skip(n + 1));
            }
            let (start, end) = match build_bit_range(field.extraction) {
                Some(range) => range,
                None => {
                    assert(bit_range_of(field.extraction) is None);
                    assert(db_field_result(f0[n]) == Err::<FieldSchema, RegistryBuildError>(
                        RegistryBuildError::BitRange,
                    ));
                    return Err(RegistryBuildError::BitRange);
                },
            };
            let schema = match build_field_schema(field.variable_type, field.conversion, field.description, start, end) {
                Ok(s) => s,
                Err(e) => return Err(RegistryBuildError::Field(e)),
            };
            let ghost before = built@;
            built.push((field.name, schema));
            proof {
                assert(f0.take(n + 1) =~= f0.take(n).push(f0[n]));
                assert(built@ =~= db_fields_schemas(f0.take(n + 1)));
            }
        }
        proof {
            assert(f0.take(f0.len() as int) =~= f0);
        }
        let ghost b = built@;
        let schema = build_telemetry_schema(built);
        proof {
            assert forall|k: int| 0 <= k < schema.integral_fields@.len() implies (
            #[trigger] schema.integral_fields@[k]).1.field.wf() by {
                let o = schema.integral_fields@[k].0.order as int;
                assert(field_schema_wf(b[o].1));
            }
            assert forall|k: int| 0 <= k < schema.floating_fields@.len() implies (
            #[trigger] schema.floating_fields@[k]).1.field.wf() by {
                let o = schema.floating_fields@[k].0.order as int;
                assert(field_schema_wf(b[o].1));
            }
        }
        let ghost s0 = self.schemas@;
        let key = component.clone();
        self.schemas.push(((key, packet_id), FatTelemetrySchema { component, telemetry: name, schema }));
        proof {
            assert(self.schemas@.drop_last() =~= s0);
            assert forall|i: int| 0 <= i < self.schemas@.len() implies (#[trigger] self.schemas@[i]).1.schema.wf() by {
                if i < s0.len() {
                    assert(self.schemas@[i] == s0[i]);
                }
            }
        }
        Ok(())
    }

    /// Builds the registry from the database's telemetries, the APIDs of
    /// each component and the channels.
    pub fn from_database(
        telemetries: Vec<DbTelemetry>,
        apid_map: Vec<(u16, String)>,
        channels: Vec<(String, TelemetryChannel)>,
    ) -> (r: Result<TelemetryRegistry, TelemetryRegistryError>)
        ensures
            r is Ok <==> forall|i: int| 0 <= i < telemetries@.len() ==> telemetry_ok(
                #[trigger] telemetries@[i],
                apid_map@,
            ),
            r == Err::<TelemetryRegistry, TelemetryRegistryError>(TelemetryRegistryError::NoApid) ==> exists|
                i: int,
            | 0 <= i < telemetries@.len() && !has_apid(apid_map@, (#[trigger] telemetries@[i]).component@),
            r matches Err(TelemetryRegistryError::Build(e)) ==> exists|i: int, j: int|
                0 <= i < telemetries@.len() && 0 <= j < telemetries@[i].fields@.len() && db_field_result(
                    #[trigger] telemetries@[i].fields@[j],
                ) == Err::<FieldSchema, RegistryBuildError>(e),
            r matches Ok(reg) ==> {
                &&& reg.wf()
                &&& reg.apid_map@ == apid_map@
                &&& reg.channels@ == channels@
                &&& reg.schemas@.len() == telemetries@.len()
                &&& forall|i: int| 0 <= i < telemetries@.len() ==> {
                    let t = #[trigger] telemetries@[i];
                    let e = reg.schemas@[i];
                    &&& e.0 == (t.component, t.packet_id)
                    &&& e.1.component == t.component
                    &&& e.1.telemetry == t.name
                    &&& schema_from_fields(e.1.schema, db_fields_schemas(t.fields@))
                }
            },
    {
        let mut reg = TelemetryRegistry::new(apid_map, channels);
        let ghost t0 = telemetries@;
        let mut rest = telemetries;
        let mut i: usize = 0;
        assert(t0.skip(0) =~= t0);
        assert(t0.len() == rest.len());
        while rest.len() > 0
            invariant
                t0 == telemetries@,
                t0.len() <= usize::MAX,
                i + rest@.len() == t0.len(),
                rest@ == t0.skip(i as int),
                reg.wf(),
                reg.apid_map@ == apid_map@,
                reg.channels@ == channels@,
                reg.schemas@.len() == i,
                forall|j: int| 0 <= j < i ==> telemetry_ok(#[trigger] t0[j], apid_map@),
                forall|j: int| 0 <= j < i ==> {
                    let t = #[trigger] t0[j];
                    let e = reg.schemas@[j];
                    &&& e.0 == (t.component, t.packet_id)
                    &&& e.1.component == t.component
                    &&& e.1.telemetry == t.name
                    &&& schema_from_fields(e.1.schema, db_fields_schemas(t.fields@))
                },
            decreases rest.len(),
        {
            let t = rest.remove(0);
            proof {
                assert(t == t0[i as int]);
                assert(rest@ =~= t0.skip(i + 1));
            }
            if !component_has_apid(&reg.apid_map, t.component.as_str()) {
                assert(!telemetry_ok(t0[i as int], apid_map@));
                return Err(TelemetryRegistryError::NoApid);
            }
            let ghost before = reg.schemas@;
            match reg.insert(t) {
                Ok(()) => {},
                Err(e) => {
                    return Err(TelemetryRegistryError::Build(e));
                },
            }
            proof {
                assert forall|j: int| 0 <= j < i implies reg.schemas@[j] == before[j] by {
                    assert(reg.schemas@.drop_last()[j] == before[j]);
                }
            }
            i = i + 1;
        }
        Ok(reg)
    }

    /// Every TMIV name this registry can emit.
    pub fn all_tmiv_names(&self) -> (r: Vec<String>)
        ensures
            r@.map_values(|n: String| n@) == all_names(self.channels@, self.schemas@),
    {
        let mut out: Vec<String> = Vec::new();
        let mut i: usize = 0;
        while i < self.channels.len()
            invariant
                i <= self.channels@.len(),
                out@.map_values(|n: String| n@) == all_names(self.channels@.take(i as int), self.schemas@),
            decreases self.channels.len() - i,
        {
            let ghost before = out@.map_values(|n: String| n@);
            let channel = self.channels[i].0.as_str();
            let mut j: usize = 0;
            while j < self.schemas.len()
                invariant
                    i < self.channels@.len(),
                    channel@ == self.channels@[i as int].0@,
                    j <= self.schemas@.len(),
                    out@.map_values(|n: String| n@) == before + names_on_channel(channel@, self.schemas@.take(j as int)),
                decreases self.schemas.len() - j,
            {
                let ghost mid = out@;
                let name = self.schemas[j].1.build_tmiv_name(channel).to_name_string();
                out.push(name);
                proof {
                    assert(self.schemas@.take(j + 1) =~= self.schemas@.take(j as int).push(self.schemas@[j as int]));
                    assert(out@.map_values(|n: String| n@) =~= mid.map_values(|n: String| n@).push(name@));
                    assert(names_on_channel(channel@, self.schemas@.take(j + 1)) =~= names_on_channel(
                        channel@,
                        self.schemas@.take(j as int),
                    ).push(name@));
                    assert(out@.map_values(|n: String| n@) =~= before + names_on_channel(
                        channel@,
                        self.schemas@.take(j + 1),
                    ));
                }
                j = j + 1;
            }
            proof {
                assert(self.schemas@.take(j as int) =~= self.schemas@);
                assert(self.channels@.take(i + 1).drop_last() =~= self.channels@.take(i as int));
                assert(self.channels@.take(i + 1).last() == self.channels@[i as int]);
            }
            i = i + 1;
        }
        assert(self.channels@.take(i as int) =~= self.channels@);
        out
    }

    pub open spec fn wf(&self) -> bool {
        forall|i: int| 0 <= i < self.schemas@.len() ==> (#[trigger] self.schemas@[i]).1.schema.wf()
    }

    /// The schema of telemetry `tlm_id` from `apid`: that of the APID's
    /// component.
    pub fn lookup(&self, apid: u16, tlm_id: u8) -> (r: Option<&FatTelemetrySchema>)
        ensures
            ({
                let k = resolve(*self, apid, tlm_id);
                &&& r is Some <==> k < self.schemas@.len()
                &&& r matches Some(s) ==> *s == self.schemas@[k].1
            }),
    {
        proof {
            lemma_apid_index_bounds(self.apid_map@, apid, self.apid_map@.len() as int);
        }
        let mut a: usize = self.apid_map.len();
        while a > 0 && self.apid_map[a - 1].0 != apid
            invariant
                a <= self.apid_map@.len(),
                apid_index(self.apid_map@, apid, self.apid_map@.len() as int) == apid_index(
                    self.apid_map@,
                    apid,
                    a as int,
                ),
            decreases a,
        {
            a = a - 1;
        }
        if a == 0 {
            return None;
        }
        let component = self.apid_map[a - 1].1.as_str();
        let mut i: usize = self.schemas.len();
        while i > 0 && !(str_eq(self.schemas[i - 1].0.0.as_str(), component) && self.schemas[i - 1].0.1 == tlm_id)
            invariant
                i <= self.schemas@.len(),
                schema_index(self.schemas@, component@, tlm_id, self.schemas@.len() as int) == schema_index(
                    self.schemas@,
                    component@,
                    tlm_id,
                    i as int,
                ),
            decreases i,
        {
            i = i - 1;
        }
        if i == 0 {
            None
        } else {
            Some(&self.schemas[i - 1].1)
        }
    }

    /// The channels that telemetry with `destination_flags` goes to.
    pub fn find_channels(&self, destination_flags: u8) -> (r: Vec<String>)
        ensures
            r@.map_values(|s: String| s@) == matching_channels(self.channels@, destination_flags),
    {
        find_channels(&self.channels, destination_flags)
    }
}

/// A telemetry field as the database describes it.
pub struct DbField {
    pub name: String,
    pub description: String,
    pub variable_type: VariableType,
    pub conversion: IntegralConversion,
    pub extraction: FieldExtractionInfo,
}

/// A telemetry packet as the database describes it.
pub struct DbTelemetry {
    pub component: String,
    pub name: String,
    pub packet_id: u8,
    pub fields: Vec<DbField>,
}

/// The bits a field's position puts it at, where they can be counted.
pub open spec fn bit_range_of(info: FieldExtractionInfo) -> Option<(usize, usize)> {
    let start = info.octet_position * 8 + info.bit_position;
    let end = start + info.bit_length;
    if end <= usize::MAX {
        Some((start as usize, end as usize))
    } else {
        None
    }
}

/// The schema a database field gives, or why it gives none.
pub open spec fn db_field_result(f: DbField) -> Result<FieldSchema, RegistryBuildError> {
    match bit_range_of(f.extraction) {
        None => Err(RegistryBuildError::BitRange),
        Some((start, end)) => match field_schema_of(f.variable_type, f.conversion, f.description, start, end) {
            Ok(fs) => Ok(fs),
            Err(e) => Err(RegistryBuildError::Field(e)),
        },
    }
}

/// The named field schemas that database fields give.
pub open spec fn db_fields_schemas(fields: Seq<DbField>) -> Seq<(String, FieldSchema)> {
    fields.map_values(|f: DbField| (f.name, db_field_result(f)->Ok_0))
}

/// Why a telemetry could not be registered.
#[derive(Debug, Clone, Copy, PartialEq, Eq, Structural)]
pub enum RegistryBuildError {
    /// A field's bit position cannot be counted.
    BitRange,
    /// A field's type and layout do not agree.
    Field(FieldSchemaError),
}

/// Some APID belongs to `component`.
pub open spec fn has_apid(m: Seq<(u16, String)>, component: Seq<char>) -> bool {
    exists|i: int| 0 <= i < m.len() && (#[trigger] m[i]).1@ == component
}

fn component_has_apid(m: &Vec<(u16, String)>, component: &str) -> (r: bool)
    ensures
        r == has_apid(m@, component@),
{
    let mut i: usize = 0;
    while i < m.len()
        invariant
            i <= m@.len(),
            forall|j: int| 0 <= j < i ==> (#[trigger] m@[j]).1@ != component@,
        decreases m.len() - i,
    {
        if str_eq(m[i].1.as_str(), component) {
            return true;
        }
        i = i + 1;
    }
    false
}

/// A database telemetry can be registered: its component has an APID and
/// every field gives a schema.
pub open spec fn telemetry_ok(t: DbTelemetry, m: Seq<(u16, String)>) -> bool {
    &&& has_apid(m, t.component@)
    &&& forall|j: int| 0 <= j < t.fields@.len() ==> db_field_result(#[trigger] t.fields@[j]) is Ok
}

/// Why the telemetry registry could not be built.
#[derive(Debug, Clone, Copy, PartialEq, Eq, Structural)]
pub enum TelemetryRegistryError {
    /// No APID is defined for a telemetry's component.
    NoApid,
    /// A field of a telemetry gives no schema.
    Build(RegistryBuildError),
}

/// What one telemetry packet yields: the TMIV names it goes out under (one
/// per matching channel) and its field readings.
pub struct TelemetryPacket {
    pub tmiv_names: Vec<String>,
    pub fields: Vec<FieldReading>,
}

/// Why a packet gave no telemetry.
#[derive(Debug, Clone, Copy, PartialEq, Eq, Structural)]
pub enum TmivBuildError {
    /// The packet is shorter than its headers.
    TooShort,
    /// No schema for this APID and telemetry ID.
    UnknownTelemetry { apid: u16, tlm_id: u8 },
    /// A field does not fit the packet.
    Field(FieldError),
}

/// The schema position of the telemetry a packet carries.
pub open spec fn packet_schema(b: TmivBuilder, bytes: Seq<u8>) -> int {
    let apid = PrimaryHeader::spec_parse(bytes).apid;
    let sh = TmSecondaryHeader::spec_parse(bytes.skip(PRIMARY_HEADER_SIZE as int));
    resolve(b.tlm_registry, apid, sh.telemetry_id)
}

/// The packet `bytes` gives telemetry: it holds both headers, its schema is
/// known, and every field fits.
pub open spec fn packet_decodes(b: TmivBuilder, bytes: Seq<u8>) -> bool {
    let k = packet_schema(b, bytes);
    &&& bytes.len() >= PRIMARY_HEADER_SIZE + TM_SECONDARY_HEADER_SIZE
    &&& k < b.tlm_registry.schemas@.len()
    &&& fields_readable(b.tlm_registry.schemas@[k].1.schema, bytes)
}

/// `p` is the telemetry the packet `bytes` gives: one TMIV name per channel
/// its destination flags select, and one reading per field.
pub open spec fn packet_decoded(b: TmivBuilder, bytes: Seq<u8>, p: TelemetryPacket) -> bool {
    let k = packet_schema(b, bytes);
    let s = b.tlm_registry.schemas@[k].1;
    let sh = TmSecondaryHeader::spec_parse(bytes.skip(PRIMARY_HEADER_SIZE as int));
    let names = matching_channels(b.tlm_registry.channels@, sh.destination_flags);
    &&& k < b.tlm_registry.schemas@.len()
    &&& p.tmiv_names@.len() == names.len()
    &&& forall|i: int| 0 <= i < names.len() ==> (#[trigger] p.tmiv_names@[i])@ == crate::registry::dotted(
        names[i],
        s.component@,
        s.telemetry@,
    )
    &&& readings_at(s.schema, bytes, p.fields@, 0)
}

/// Builds telemetry records from Space Packets.
pub struct TmivBuilder {
    pub tlm_registry: TelemetryRegistry,
}

impl TmivBuilder {
    /// Decodes a whole Space Packet (headers included): finds its schema by
    /// APID and telemetry ID, the channels its destination flags select,
    /// and reads its fields.
    pub fn build(&self, space_packet_bytes: &[u8]) -> (r: Result<TelemetryPacket, TmivBuildError>)
        requires
            self.tlm_registry.wf(),
        ensures
            r is Ok <==> packet_decodes(*self, space_packet_bytes@),
            r matches Ok(p) ==> packet_decoded(*self, space_packet_bytes@, p),
            space_packet_bytes@.len() < PRIMARY_HEADER_SIZE + TM_SECONDARY_HEADER_SIZE ==> r
                == Err::<TelemetryPacket, TmivBuildError>(TmivBuildError::TooShort),
            ({
                let b = space_packet_bytes@;
                let apid = PrimaryHeader::spec_parse(b).apid;
                let sh = TmSecondaryHeader::spec_parse(b.skip(PRIMARY_HEADER_SIZE as int));
                let k = resolve(self.tlm_registry, apid, sh.telemetry_id);
                b.len() >= PRIMARY_HEADER_SIZE + TM_SECONDARY_HEADER_SIZE ==> {
                    &&& k >= self.tlm_registry.schemas@.len() ==> r == Err::<TelemetryPacket, TmivBuildError>(
                        TmivBuildError::UnknownTelemetry { apid, tlm_id: sh.telemetry_id },
                    )
                    &&& k < self.tlm_registry.schemas@.len() ==> (r is Ok <==> fields_readable(
                        self.tlm_registry.schemas@[k].1.schema,
                        b,
                    ))
                    &&& k < self.tlm_registry.schemas@.len() && r is Err ==> (r matches Err(
                        TmivBuildError::Field(_),
                    ))
                    &&& r matches Ok(p) ==> {
                        let s = self.tlm_registry.schemas@[k].1;
                        let names = matching_channels(self.tlm_registry.channels@, sh.destination_flags);
                        &&& k < self.tlm_registry.schemas@.len()
                        &&& p.tmiv_names@.len() == names.len()
                        &&& forall|i: int| 0 <= i < names.len() ==> (#[trigger] p.tmiv_names@[i])@
                            == crate::registry::dotted(names[i], s.component@, s.telemetry@)
                        &&& readings_at(s.schema, b, p.fields@, 0)
                    }
                }
            }),
    {
        let ph = match PrimaryHeader::parse(space_packet_bytes) {
            Some(h) => h,
            None => return Err(TmivBuildError::TooShort),
        };
        if space_packet_bytes.len() < PRIMARY_HEADER_SIZE + TM_SECONDARY_HEADER_SIZE {
            return Err(TmivBuildError::TooShort);
        }
        let rest = slice_subrange(space_packet_bytes, PRIMARY_HEADER_SIZE, space_packet_bytes.len());
        assert(rest@ =~= space_packet_bytes@.skip(PRIMARY_HEADER_SIZE as int));
        let sh = TmSecondaryHeader::parse(rest).unwrap();
        let telemetry = match self.tlm_registry.lookup(ph.apid, sh.telemetry_id) {
            Some(t) => t,
            None => return Err(TmivBuildError::UnknownTelemetry { apid: ph.apid, tlm_id: sh.telemetry_id }),
        };
        let channels = self.tlm_registry.find_channels(sh.destination_flags);
        let mut fields: Vec<FieldReading> = Vec::new();
        let ghost k = resolve(self.tlm_registry, ph.apid, sh.telemetry_id);
        assert(k < self.tlm_registry.schemas@.len());
        proof {
            lemma_resolve_bounds(self.tlm_registry, ph.apid, sh.telemetry_id);
        }
        assert(self.tlm_registry.schemas@[k].1.schema.wf());
        match FieldsBuilder::new(&telemetry.schema).build(&mut fields, space_packet_bytes) {
            Ok(()) => {},
            Err(e) => return Err(TmivBuildError::Field(e)),
        }
        let ghost names = channels@.map_values(|s: String| s@);
        let ghost read = fields@;
        let mut tmiv_names: Vec<String> = Vec::new();
        let mut i: usize = 0;
        while i < channels.len()
            invariant
                fields@ == read,
                i <= channels@.len(),
                names == channels@.map_values(|s: String| s@),
                tmiv_names@.len() == i,
                forall|j: int| 0 <= j < i ==> (#[trigger] tmiv_names@[j])@ == crate::registry::dotted(
                    names[j],
                    telemetry.component@,
                    telemetry.telemetry@,
                ),
            decreases channels.len() - i,
        {
            let name = telemetry.build_tmiv_name(channels[i].as_str()).to_name_string();
            tmiv_names.push(name);
            i = i + 1;
        }
        Ok(TelemetryPacket { tmiv_names, fields })
    }
}

/// Decoding the packets at the front of `buf` with `b`: the packets that
/// give telemetry, in order (idle packets are skipped), and whether decoding
/// stopped at a packet that gives none. Each step uses one unit of `fuel`.
pub open spec fn decode_buffer(b: TmivBuilder, buf: Seq<u8>, fuel: nat) -> (Seq<Seq<u8>>, bool)
    decreases fuel,
{
    if fuel == 0 {
        (Seq::empty(), false)
    } else {
        match next_packet_len(buf) {
            None => (Seq::empty(), false),
            Some(n) => {
                let packet = buf.take(n as int);
                if PrimaryHeader::spec_parse(buf).apid == IDLE_APID {
                    decode_buffer(b, buf.skip(n as int), (fuel - 1) as nat)
                } else if !packet_decodes(b, packet) {
                    (Seq::empty(), true)
                } else {
                    let (rest, failed) = decode_buffer(b, buf.skip(n as int), (fuel - 1) as nat);
                    (seq![packet] + rest, failed)
                }
            },
        }
    }
}

/// The per-VCID state of the downlink.
pub struct VirtualChannel {
    pub synchronizer: Synchronizer,
    pub defragmenter: Defragmenter,
}

/// What became of one received AOS frame.
pub struct FrameReport {
    /// The CLCW in the frame's trailer, for FOP-1.
    pub clcw: Option<Clcw>,
    /// The frame carried another spacecraft's ID and was dropped.
    pub unknown_scid: bool,
    /// Frames were lost: the frame count that was expected.
    pub expected_frame_count: Option<FrameCount>,
    /// The M_PDU was malformed; the channel was reset.
    pub defrag_error: Option<DefragError>,
    /// A packet gave no telemetry; the channel's buffer was reset.
    pub build_error: Option<TmivBuildError>,
    /// Telemetry decoded from the packets completed by this frame, in order.
    pub packets: Vec<TelemetryPacket>,
}

/// Takes AOS frames from the radio link and turns the Space Packets they
/// carry into telemetry.
pub struct Downlink {
    pub aos_scid: u8,
    pub channels: Vec<VirtualChannel>,
    pub tmiv_builder: TmivBuilder,
}

impl Downlink {
    pub open spec fn wf(&self) -> bool {
        &&& self.channels@.len() == 64
        &&& self.tmiv_builder.tlm_registry.wf()
        &&& forall|i: int| 0 <= i < 64 ==> ((#[trigger] self.channels@[i]).synchronizer.counter matches Some(
            c,
        ) ==> c.wf())
    }

    /// A downlink for spacecraft `aos_scid`, every virtual channel fresh.
    pub fn new(aos_scid: u8, tmiv_builder: TmivBuilder) -> (r: Downlink)
        requires
            tmiv_builder.tlm_registry.wf(),
        ensures
            r.wf(),
            r.aos_scid == aos_scid,
    {
        let mut channels: Vec<VirtualChannel> = Vec::new();
        let mut i: usize = 0;
        while i < 64
            invariant
                i <= 64,
                channels@.len() == i,
                forall|j: int| 0 <= j < i ==> (#[trigger] channels@[j]).synchronizer.counter is None,
            decreases 64 - i,
        {
            channels.push(VirtualChannel { synchronizer: Synchronizer::new(), defragmenter: Defragmenter::new() });
            i = i + 1;
        }
        Downlink { aos_scid, channels, tmiv_builder }
    }

    /// Processes one frame: hands back its CLCW, drops it if it is another
    /// spacecraft's, checks the frame count of its virtual channel, feeds
    /// its M_PDU to the channel's defragmenter, and decodes every non-idle
    /// packet that completes.
    pub fn receive(&mut self, frame_bytes: &[u8]) -> (r: FrameReport)
        requires
            old(self).wf(),
        ensures
            final(self).wf(),
            final(self).aos_scid == old(self).aos_scid,
            frame_bytes@.len() < AOS_PRIMARY_HEADER_SIZE + CLCW_SIZE ==> r.clcw is None
                && r.packets@.len() == 0,
            frame_bytes@.len() >= AOS_PRIMARY_HEADER_SIZE + CLCW_SIZE ==> r.clcw == Some(
                Clcw::spec_parse(frame_bytes@.subrange(frame_bytes@.len() - CLCW_SIZE, frame_bytes@.len() as int)),
            ),
            r.unknown_scid ==> r.packets@.len() == 0 && final(self).channels@ == old(self).channels@,
            r.unknown_scid <==> frame_bytes@.len() >= AOS_PRIMARY_HEADER_SIZE + CLCW_SIZE
                && AosPrimaryHeader::spec_parse(frame_bytes@).scid != old(self).aos_scid,
            frame_bytes@.len() >= AOS_PRIMARY_HEADER_SIZE + CLCW_SIZE && !r.unknown_scid ==> {
                let h = AosPrimaryHeader::spec_parse(frame_bytes@);
                let v = h.vcid as int;
                let fc = FrameCount { raw: h.frame_count_raw };
                &&& forall|i: int| 0 <= i < 64 && i != v ==> #[trigger] final(self).channels@[i] == old(
                    self,
                ).channels@[i]
                &&& final(self).channels@[v].synchronizer.counter == if r.defrag_error is Some {
                    None::<FrameCount>
                } else {
                    Some(fc)
                }
                &&& r.expected_frame_count == match old(self).channels@[v].synchronizer.counter {
                    None => None::<FrameCount>,
                    Some(c) => if fc == spec_next_count(c) {
                        None::<FrameCount>
                    } else {
                        Some(spec_next_count(c))
                    },
                }
                &&& {
                    let buf0 = if r.expected_frame_count is Some {
                        Seq::<u8>::empty()
                    } else {
                        old(self).channels@[v].defragmenter@
                    };
                    let zone = frame_bytes@.subrange(
                        AOS_PRIMARY_HEADER_SIZE as int,
                        frame_bytes@.len() - CLCW_SIZE,
                    );
                    let pushed = push_step(buf0, zone);
                    let decoded = decode_buffer(old(self).tmiv_builder, pushed->Ok_0.0, pushed->Ok_0.0.len());
                    &&& r.defrag_error is Some <==> pushed is Err
                    &&& r.defrag_error is None ==> {
                        &&& r.packets@.len() == decoded.0.len()
                        &&& forall|i: int| 0 <= i < decoded.0.len() ==> packet_decoded(
                            old(self).tmiv_builder,
                            #[trigger] decoded.0[i],
                            r.packets@[i],
                        )
                        &&& (r.build_error is Some <==> decoded.1)
                    }
                }
            },
    {
        let mut report = FrameReport {
            clcw: None,
            unknown_scid: false,
            expected_frame_count: None,
            defrag_error: None,
            build_error: None,
            packets: Vec::new(),
        };
        let tf = match AosTransferFrame::new(frame_bytes) {
            Some(tf) => tf,
            None => return report,
        };
        report.clcw = Some(tf.trailer);
        if tf.primary_header.scid != self.aos_scid {
            report.unknown_scid = true;
            return report;
        }
        let vcid = tf.primary_header.vcid as usize;
        let frame_count = tf.primary_header.frame_count();
        let mut channel = self.channels.remove(vcid);
        assert(channel.synchronizer.counter matches Some(c) ==> c.wf()) by {
            assert(old(self).channels@[vcid as int] == channel);
        }
        match channel.synchronizer.next(frame_count) {
            Ok(()) => {},
            Err(expected) => {
                report.expected_frame_count = Some(expected);
                channel.defragmenter.reset();
            },
        }
        match channel.defragmenter.push(tf.data_unit_zone.as_slice()) {
            Ok(_) => {},
            Err(e) => {
                report.defrag_error = Some(e);
                channel.synchronizer.reset();
                channel.defragmenter.reset();
                self.channels.insert(vcid, channel);
                proof {
                    assert(self.channels@ =~= old(self).channels@.update(vcid as int, channel));
                    self.lemma_channels_wf_after_insert(old(self).channels@, vcid as int);
                }
                return report;
            },
        }
        let mut packets: Vec<TelemetryPacket> = Vec::new();
        let mut done = false;
        let ghost removed = self.channels@;
        let ghost clcw = report.clcw;
        let ghost expected = report.expected_frame_count;
        let ghost start = channel.defragmenter@;
        let ghost mut fuel: nat = start.len();
        let ghost mut decoded: Seq<Seq<u8>> = Seq::empty();
        proof {
            assert(decode_buffer(self.tmiv_builder, start, fuel).0 =~= decoded + decode_buffer(
                self.tmiv_builder,
                start,
                fuel,
            ).0);
        }
        while !done
            invariant
                packets@.len() == decoded.len(),
                forall|i: int| 0 <= i < decoded.len() ==> packet_decoded(
                    self.tmiv_builder,
                    #[trigger] decoded[i],
                    packets@[i],
                ),
                !done ==> {
                    let rest = decode_buffer(self.tmiv_builder, channel.defragmenter@, fuel);
                    &&& channel.defragmenter@.len() <= fuel
                    &&& report.build_error is None
                    &&& decode_buffer(self.tmiv_builder, start, start.len()) == (decoded + rest.0, rest.1)
                },
                done ==> decode_buffer(self.tmiv_builder, start, start.len()) == (
                    decoded,
                    report.build_error is Some,
                ),
                self.tmiv_builder.tlm_registry.wf(),
                self.channels@ == removed,
                self.aos_scid == old(self).aos_scid,
                self.tmiv_builder == old(self).tmiv_builder,
                report.clcw == clcw,
                !report.unknown_scid,
                report.defrag_error is None,
                report.expected_frame_count == expected,
                channel.synchronizer.counter == Some(frame_count),
                channel.synchronizer.counter matches Some(c) ==> c.wf(),
            decreases channel.defragmenter@.len() + if done { 0int } else { 1int },
        {
            let ghost cur = channel.defragmenter@;
            match channel.defragmenter.read_as_bytes_and_packet() {
                None => {
                    proof {
                        assert(decode_buffer(self.tmiv_builder, cur, fuel) == (Seq::<Seq<u8>>::empty(), false));
                        assert(decoded + Seq::<Seq<u8>>::empty() =~= decoded);
                    }
                    done = true;
                },
                Some((bytes, packet)) => {
                    let ghost n = next_packet_len(cur)->0;
                    let ghost rest_before = decode_buffer(self.tmiv_builder, cur.skip(n as int), (fuel - 1) as nat);
                    if !packet.primary_header.is_idle_packet() {
                        match self.tmiv_builder.build(bytes.as_slice()) {
                            Ok(p) => {
                                packets.push(p);
                                proof {
                                    assert(decode_buffer(self.tmiv_builder, cur, fuel) == (
                                        seq![bytes@] + rest_before.0,
                                        rest_before.1,
                                    ));
                                    assert(decoded.push(bytes@) + rest_before.0 =~= decoded + (seq![bytes@]
                                        + rest_before.0));
                                    decoded = decoded.push(bytes@);
                                }
                            },
                            Err(e) => {
                                proof {
                                    assert(decode_buffer(self.tmiv_builder, cur, fuel) == (
                                        Seq::<Seq<u8>>::empty(),
                                        true,
                                    ));
                                    assert(decoded + Seq::<Seq<u8>>::empty() =~= decoded);
                                }
                                report.build_error = Some(e);
                                channel.defragmenter.reset();
                                done = true;
                            },
                        }
                    }
                    if !done {
                        let ghost before = channel.defragmenter@;
                        let n = channel.defragmenter.advance();
                        assert(n > 0);
                        assert(channel.defragmenter@.len() < before.len());
                        proof {
                            fuel = (fuel - 1) as nat;
                        }
                    }
                },
            }
        }
        report.packets = packets;
        self.channels.insert(vcid, channel);
        proof {
            assert(self.channels@ =~= old(self).channels@.update(vcid as int, channel));
            self.lemma_channels_wf_after_insert(old(self).channels@, vcid as int);
        }
        report
    }

    proof fn lemma_channels_wf_after_insert(&self, before: Seq<VirtualChannel>, vcid: int)
        requires
            before.len() == 64,
            0 <= vcid < 64,
            forall|i: int| 0 <= i < 64 ==> ((#[trigger] before[i]).synchronizer.counter matches Some(c) ==> c.wf()),
            self.channels@.len() == 64,
            forall|i: int| 0 <= i < 64 && i != vcid ==> #[trigger] self.channels@[i] == before[i],
            self.channels@[vcid].synchronizer.counter matches Some(c) ==> c.wf(),
        ensures
            forall|i: int| 0 <= i < 64 ==> ((#[trigger] self.channels@[i]).synchronizer.counter matches Some(
                c,
            ) ==> c.wf()),
    {
        assert forall|i: int| 0 <= i < 64 implies ((#[trigger] self.channels@[i]).synchronizer.counter matches Some(
            c,
        ) ==> c.wf()) by {
            if i != vcid {
                assert(self.channels@[i] == before[i]);
            }
        }
    }
}

} // verus!
