use vstd::prelude::*;

use crate::c2a::{SegmentHeader, SegmentSequenceFlag, TcSecondaryHeader};
use crate::fop::{inc_id, Fop, FopStateView, Frame, FrameEvent, FrameView, SentFrameView};
use crate::tc::FrameType;
use crate::cmd::{
    build_schema, numeric_of, raw_last, schema_from_params, trailer_of, write_all, write_outcome, CommandSchema, ParamType,
    ParamValue, WriteError,
};
use crate::names::str_eq;
use crate::space_packet::{PacketType, PrimaryHeader, SequenceFlag};
use crate::satconfig::CommandSubsystem;
use crate::tco::{Tco, TcoParam, TcoValue};

verus! {

/// Room for the user data of a command packet in a TC frame.
pub const USER_DATA_CAPACITY: usize = 1001;

/// The position of the first parameter named `name`, or the number of
/// parameters.
pub open spec fn first_named(p: Seq<TcoParam>, name: Seq<char>, i: int) -> int
    decreases p.len() - i,
{
    if i >= p.len() {
        p.len() as int
    } else if p[i].name@ == name {
        i
    } else {
        first_named(p, name, i + 1)
    }
}

/// The value of the first parameter named `name`, where it has one.
pub open spec fn value_named(p: Seq<TcoParam>, name: Seq<char>) -> Option<TcoValue> {
    let k = first_named(p, name, 0);
    if k < p.len() {
        p[k].value
    } else {
        None
    }
}

/// The name of positional parameter `i` (counting from 0): `param1` to
/// `param6`.
pub open spec fn parameter_name(i: int) -> Seq<char> {
    seq!['p', 'a', 'r', 'a', 'm', (('1' as u32) + i) as char]
}

/// Why a parameter could not be read.
#[derive(Debug, Clone, Copy, PartialEq, Eq, Structural)]
pub enum ReadError {
    /// The TCO has no time indicator.
    NoTimeIndicator,
    /// The value has another type.
    UnexpectedType,
}

/// Reads parameters of a TCO by name.
pub struct Reader<'a> {
    pub tco: &'a Tco,
}

/// Reads one parameter value as a given type.
pub struct ValueReader<'a> {
    pub value: &'a TcoValue,
}

impl<'a> ValueReader<'a> {
    pub fn read_integer(&self) -> (r: Result<i64, ReadError>)
        ensures
            match *self.value {
                TcoValue::Integer(i) => r == Ok::<i64, ReadError>(i),
                _ => r == Err::<i64, ReadError>(ReadError::UnexpectedType),
            },
    {
        match self.value {
            TcoValue::Integer(i) => Ok(*i),
            _ => Err(ReadError::UnexpectedType),
        }
    }

    /// The bit pattern of a double value.
    pub fn read_double(&self) -> (r: Result<u64, ReadError>)
        ensures
            match *self.value {
                TcoValue::Double(d) => r == Ok::<u64, ReadError>(d),
                _ => r == Err::<u64, ReadError>(ReadError::UnexpectedType),
            },
    {
        match self.value {
            TcoValue::Double(d) => Ok(*d),
            _ => Err(ReadError::UnexpectedType),
        }
    }

    pub fn read_bytes(&self) -> (r: Result<&'a [u8], ReadError>)
        ensures
            match *self.value {
                TcoValue::Bytes(b) => r matches Ok(s) && s@ == b@,
                _ => r == Err::<&'a [u8], ReadError>(ReadError::UnexpectedType),
            },
    {
        match self.value {
            TcoValue::Bytes(b) => Ok(b.as_slice()),
            _ => Err(ReadError::UnexpectedType),
        }
    }
}

impl<'a> Reader<'a> {
    pub fn new(tco: &'a Tco) -> (r: Reader<'a>)
        ensures
            r.tco == tco,
    {
        Reader { tco }
    }

    /// The value of the first parameter named `name`.
    pub fn get_value_by_name(&self, name: &str) -> (r: Option<&'a TcoValue>)
        ensures
            match value_named(self.tco.params@, name@) {
                Some(v) => r == Some(&v),
                None => r is None,
            },
    {
        let params = &self.tco.params;
        let mut i: usize = 0;
        while i < params.len()
            invariant
                params == &self.tco.params,
                i <= params@.len(),
                first_named(params@, name@, 0) == first_named(params@, name@, i as int),
            decreases params.len() - i,
        {
            if str_eq(params[i].name.as_str(), name) {
                return match &params[i].value {
                    Some(v) => Some(v),
                    None => None,
                };
            }
            i = i + 1;
        }
        None
    }

    pub fn get_reader_by_name(&self, name: &str) -> (r: Option<ValueReader<'a>>)
        ensures
            match value_named(self.tco.params@, name@) {
                Some(v) => r matches Some(vr) && *vr.value == v,
                None => r is None,
            },
    {
        match self.get_value_by_name(name) {
            Some(value) => Some(ValueReader { value }),
            None => None,
        }
    }

    /// The integer parameter `time_indicator`, cut to its low 32 bits.
    pub fn time_indicator(&self) -> (r: Result<u32, ReadError>)
        ensures
            match value_named(self.tco.params@, time_indicator_name()) {
                None => r == Err::<u32, ReadError>(ReadError::NoTimeIndicator),
                Some(TcoValue::Integer(i)) => r == Ok::<u32, ReadError>(i as u32),
                Some(_) => r == Err::<u32, ReadError>(ReadError::UnexpectedType),
            },
    {
        proof {
            proof_reveal_time_indicator();
        }
        let value = match self.get_reader_by_name("time_indicator") {
            Some(v) => v,
            None => return Err(ReadError::NoTimeIndicator),
        };
        let integer = match value.read_integer() {
            Ok(i) => i,
            Err(e) => return Err(e),
        };
        Ok(#[verifier::truncate] (integer as u32))
    }

    /// The values of `param1`, `param2`, ... in order, up to the first one
    /// missing.
    pub fn parameters(&self) -> (r: Vec<&'a TcoValue>)
        ensures
            r@.len() <= 6,
            forall|i: int| 0 <= i < r@.len() ==> value_named(self.tco.params@, parameter_name(i))
                == Some(*r@[i]),
            r@.len() < 6 ==> value_named(self.tco.params@, parameter_name(r@.len() as int)) is None,
    {
        let names = ["param1", "param2", "param3", "param4", "param5", "param6"];
        let mut values: Vec<&'a TcoValue> = Vec::new();
        let mut i: usize = 0;
        while i < 6
            invariant
                i <= 6,
                values@.len() == i,
                names@ == seq!["param1", "param2", "param3", "param4", "param5", "param6"],
                forall|j: int| 0 <= j < i ==> value_named(self.tco.params@, parameter_name(j))
                    == Some(*values@[j]),
            decreases 6 - i,
        {
            let name = names[i];
            proof {
                reveal_strlit("param1");
                reveal_strlit("param2");
                reveal_strlit("param3");
                reveal_strlit("param4");
                reveal_strlit("param5");
                reveal_strlit("param6");
                assert(name@ =~= parameter_name(i as int));
            }
            match self.get_value_by_name(name) {
                Some(v) => values.push(v),
                None => {
                    return values;
                },
            }
            i = i + 1;
        }
        values
    }
}

pub open spec fn time_indicator_name() -> Seq<char> {
    seq!['t', 'i', 'm', 'e', '_', 'i', 'n', 'd', 'i', 'c', 'a', 't', 'o', 'r']
}

proof fn proof_reveal_time_indicator()
    ensures
        "time_indicator"@ == time_indicator_name(),
{
    reveal_strlit("time_indicator");
    assert("time_indicator"@ =~= time_indicator_name());
}

/// Where and how a command is sent, with its parameter layout.
pub struct FatCommandSchema<'a> {
    pub apid: u16,
    pub command_id: u16,
    pub destination_type: u8,
    pub execution_type: u8,
    pub has_time_indicator: bool,
    pub schema: &'a CommandSchema,
}

/// The header of a command packet of `apid` with `user_len` bytes of user
/// data.
pub open spec fn command_primary_header(apid: u16, user_len: nat) -> PrimaryHeader {
    PrimaryHeader {
        version_number: 0,
        packet_type: PacketType::Telecommand,
        secondary_header_flag: true,
        apid,
        sequence_flag: SequenceFlag::Unsegmented,
        sequence_count: 0,
        packet_data_length_raw: (9 + user_len - 1) as u16,
    }
}

pub open spec fn command_secondary_header(s: FatCommandSchema<'_>, time_indicator: u32) -> TcSecondaryHeader {
    secondary_header_of(s.command_id, s.destination_type, s.execution_type, s.has_time_indicator, time_indicator)
}

pub open spec fn secondary_header_of(
    command_id: u16,
    destination_type: u8,
    execution_type: u8,
    has_time_indicator: bool,
    time_indicator: u32,
) -> TcSecondaryHeader {
    TcSecondaryHeader {
        version_number: 1,
        command_type: 0,
        command_id,
        destination_type,
        execution_type,
        time_indicator: if has_time_indicator { time_indicator } else { 0 },
    }
}

/// `seg` is the TC segment of a command with these header values and
/// `schema`, carrying `parameters`: the segment header, the packet headers,
/// then the packed user data (as `write_all` leaves it).
pub open spec fn segment_of(
    apid: u16,
    secondary: TcSecondaryHeader,
    schema: CommandSchema,
    parameters: Seq<ParamValue>,
    seg: Seq<u8>,
) -> bool {
    let n = write_outcome(schema, USER_DATA_CAPACITY as nat, parameters, 0)->Ok_0;
    &&& seg.len() == 16 + n
    &&& SegmentHeader::spec_parse(seg) == (SegmentHeader {
        sequence_flag: SegmentSequenceFlag::NoSegmentation,
        map_id: 2,
    })
    &&& PrimaryHeader::spec_parse(seg.skip(1)) == command_primary_header(apid, n)
    &&& TcSecondaryHeader::spec_parse(seg.skip(7)) == secondary
    &&& exists|ud: Seq<u8>|
        {
            &&& ud.len() == USER_DATA_CAPACITY
            &&& seg.skip(16) == ud.take(n as int)
            &&& forall|i: int| 0 <= i < schema.sized_parameters@.len() ==> (
            #[trigger] schema.sized_parameters@[i]).spec_holds(ud, numeric_of(parameters[i]))
            &&& match trailer_of(parameters, schema.sized_parameters@.len()) {
                Some(t) => ud.subrange(schema.static_size as int, n as int) == t,
                None => n == schema.static_size,
            }
        }
}

/// The time indicator a command carries: the TCO's `time_indicator`
/// parameter, cut to 32 bits, where the command takes one, and 0 where it
/// does not.
pub open spec fn command_time_indicator(params: Seq<TcoParam>, has_time_indicator: bool) -> Result<u32, ReadError> {
    if !has_time_indicator {
        Ok(0)
    } else {
        match value_named(params, time_indicator_name()) {
            None => Err(ReadError::NoTimeIndicator),
            Some(TcoValue::Integer(i)) => Ok(i as u32),
            Some(_) => Err(ReadError::UnexpectedType),
        }
    }
}

/// Builds the TC segment that carries a command: the segment header (no
/// segmentation, MAP ID 2), the packet primary and secondary headers, then
/// the parameters packed by the schema. The time indicator is written only
/// where the command takes one.
#[verifier::rlimit(60)]
pub fn build_tc_segment(
    fat_schema: &FatCommandSchema,
    time_indicator: u32,
    parameters: &Vec<ParamValue>,
) -> (r: Result<Vec<u8>, WriteError>)
    requires
        fat_schema.schema.wf(),
        fat_schema.schema.static_size <= USER_DATA_CAPACITY,
        fat_schema.apid < 2048,
        fat_schema.destination_type < 16,
        fat_schema.execution_type < 16,
    ensures
        ({
            let outcome = write_outcome(*fat_schema.schema, USER_DATA_CAPACITY as nat, parameters@, 0);
            &&& r is Ok <==> outcome is Ok
            &&& r matches Err(e) ==> outcome == Err::<nat, WriteError>(e)
            &&& r matches Ok(seg) ==> segment_of(
                fat_schema.apid,
                command_secondary_header(*fat_schema, time_indicator),
                *fat_schema.schema,
                parameters@,
                seg@,
            )
        }),
{
    let (user_data, user_len) = match write_all(fat_schema.schema, vec![0u8; USER_DATA_CAPACITY], parameters) {
        Ok(x) => x,
        Err(e) => return Err(e),
    };
    proof {
        crate::cmd::lemma_outcome_within(*fat_schema.schema, USER_DATA_CAPACITY as nat, parameters@, 0);
    }
    let segment = SegmentHeader { sequence_flag: SegmentSequenceFlag::NoSegmentation, map_id: 0b10 };
    let ph = PrimaryHeader {
        version_number: 0,
        packet_type: PacketType::Telecommand,
        secondary_header_flag: true,
        apid: fat_schema.apid,
        sequence_flag: SequenceFlag::Unsegmented,
        sequence_count: 0,
        packet_data_length_raw: (9 + user_len - 1) as u16,
    };
    let sh = TcSecondaryHeader {
        version_number: 1,
        command_type: 0,
        command_id: fat_schema.command_id,
        destination_type: fat_schema.destination_type,
        execution_type: fat_schema.execution_type,
        time_indicator: if fat_schema.has_time_indicator {
            time_indicator
        } else {
            0
        },
    };
    let mut out = segment.to_bytes();
    let ghost seg_bytes = out@;
    let mut ph_bytes = ph.to_bytes();
    let ghost ph_b = ph_bytes@;
    let mut sh_bytes = sh.to_bytes();
    let ghost sh_b = sh_bytes@;
    out.append(&mut ph_bytes);
    out.append(&mut sh_bytes);
    let mut ud = vstd::slice::slice_to_vec(vstd::slice::slice_subrange(user_data.as_slice(), 0, user_len));
    let ghost ud_b = ud@;
    out.append(&mut ud);
    proof {
        let o = out@;
        reveal_with_fuel(crate::layout::offset, 8);
        assert(o.subrange(0, 1) =~= seg_bytes);
        crate::layout::lemma_field_at_prefix(seg_bytes, o, crate::c2a::segment_header_widths());
        assert(o.skip(1).subrange(0, 6) =~= ph_b);
        crate::layout::lemma_field_at_prefix(ph_b, o.skip(1), crate::space_packet::primary_header_widths());
        assert(o.skip(7).subrange(0, 9) =~= sh_b);
        crate::layout::lemma_field_at_prefix(sh_b, o.skip(7), crate::c2a::tc_secondary_header_widths());
        assert(o.skip(16) =~= user_data@.take(user_len as int));
    }
    Ok(out)
}

/// A command name split at its dots: `prefix.component.command`.
pub struct TcoName {
    pub prefix: String,
    pub component: String,
    pub command: String,
}

pub open spec fn has_no_dot(s: Seq<char>) -> bool {
    forall|i: int| 0 <= i < s.len() ==> s[i] != '.'
}

/// The positions of the dots in `s[..i]`.
pub open spec fn dots_before(s: Seq<char>, i: int) -> Seq<int>
    decreases i,
{
    if i <= 0 {
        Seq::empty()
    } else if s[i - 1] == '.' {
        dots_before(s, i - 1).push(i - 1)
    } else {
        dots_before(s, i - 1)
    }
}

/// The three parts of a name with exactly two dots.
pub open spec fn split_name(s: Seq<char>) -> (Seq<char>, Seq<char>, Seq<char>) {
    let d = dots_before(s, s.len() as int);
    (s.take(d[0]), s.subrange(d[0] + 1, d[1]), s.skip(d[1] + 1))
}

/// Why a command name was refused.
#[derive(Debug, Clone, Copy, PartialEq, Eq, Structural)]
pub enum TcoNameError {
    /// The name does not have exactly three dot-separated parts.
    NotThreeParts,
}

impl TcoName {
    /// Splits `s` into prefix, component and command; it must hold exactly
    /// two dots.
    pub fn from_str(s: &str) -> (r: Result<TcoName, TcoNameError>)
        ensures
            r is Ok <==> dots_before(s@, s@.len() as int).len() == 2,
            r matches Ok(t) ==> s@ == crate::registry::dotted(t.prefix@, t.component@, t.command@)
                && has_no_dot(t.prefix@) && has_no_dot(t.component@) && has_no_dot(t.command@)
                && (t.prefix@, t.component@, t.command@) == split_name(s@),
    {
        let n = s.unicode_len();
        let mut dots: Vec<usize> = Vec::new();
        let mut i: usize = 0;
        while i < n
            invariant
                n == s@.len(),
                i <= n,
                dots@.len() <= 3,
                dots@.len() < 3 ==> dots@.map_values(|d: usize| d as int) == dots_before(s@, i as int),
                dots@.len() == 3 ==> dots_before(s@, i as int).len() >= 3,
            decreases n - i,
        {
            if dots.len() < 3 && s.get_char(i) == '.' {
                let ghost before = dots@;
                dots.push(i);
                assert(dots@.map_values(|d: usize| d as int) =~= before.map_values(|d: usize| d as int).push(i as int));
            }
            proof {
                lemma_dots_before_grows(s@, i as int);
            }
            i = i + 1;
        }
        if dots.len() != 2 {
            proof {
                if dots@.len() == 3 {
                    lemma_dots_before_mono(s@, i as int, n as int);
                }
            }
            return Err(TcoNameError::NotThreeParts);
        }
        let d1 = dots[0];
        let d2 = dots[1];
        proof {
            lemma_dots_before_facts(s@, n as int);
            assert(dots@.map_values(|d: usize| d as int)[0] == d1 as int);
            assert(dots@.map_values(|d: usize| d as int)[1] == d2 as int);
        }
        let prefix = s.substring_char(0, d1).to_owned();
        let component = s.substring_char(d1 + 1, d2).to_owned();
        let command = s.substring_char(d2 + 1, n).to_owned();
        proof {
            assert(s@ =~= crate::registry::dotted(prefix@, component@, command@));
            assert(prefix@ =~= s@.take(d1 as int));
            assert(command@ =~= s@.skip(d2 + 1));
        }
        Ok(TcoName { prefix, component, command })
    }
}

proof fn lemma_dots_before_grows(s: Seq<char>, i: int)
    requires
        0 <= i < s.len(),
    ensures
        dots_before(s, i + 1).len() >= dots_before(s, i).len(),
{
}

proof fn lemma_dots_before_mono(s: Seq<char>, i: int, j: int)
    requires
        0 <= i <= j <= s.len(),
    ensures
        dots_before(s, j).len() >= dots_before(s, i).len(),
    decreases j - i,
{
    if i < j {
        lemma_dots_before_mono(s, i, j - 1);
    }
}

/// The recorded dots are in order, inside `s`, really dots, and the only
/// ones.
proof fn lemma_dots_before_facts(s: Seq<char>, i: int)
    requires
        0 <= i <= s.len(),
    ensures
        forall|k: int| 0 <= k < dots_before(s, i).len() ==> 0 <= #[trigger] dots_before(s, i)[k] < i
            && s[dots_before(s, i)[k]] == '.',
        forall|k: int, m: int| 0 <= k < m < dots_before(s, i).len() ==> #[trigger] dots_before(s, i)[k]
            < #[trigger] dots_before(s, i)[m],
        forall|j: int| 0 <= j < i && #[trigger] s[j] == '.' ==> dots_before(s, i).contains(j),
    decreases i,
{
    if i > 0 {
        lemma_dots_before_facts(s, i - 1);
        let d = dots_before(s, i - 1);
        if s[i - 1] == '.' {
            let e = d.push(i - 1);
            assert(dots_before(s, i) == e);
            assert forall|j: int| 0 <= j < i && #[trigger] s[j] == '.' implies e.contains(j) by {
                if j == i - 1 {
                    assert(e[d.len() as int] == j);
                } else {
                    assert(d.contains(j));
                    let k = choose|k: int| 0 <= k < d.len() && d[k] == j;
                    assert(e[k] == j);
                }
            }
        } else {
            assert(dots_before(s, i) == d);
            assert forall|j: int| 0 <= j < i && #[trigger] s[j] == '.' implies d.contains(j) by {
                assert(j != i - 1);
            }
        }
    }
}

/// The position of the first entry keyed `key`, or the number of entries.
pub open spec fn first_key<V>(s: Seq<(String, V)>, key: Seq<char>, i: int) -> int
    decreases s.len() - i,
{
    if i >= s.len() {
        s.len() as int
    } else if s[i].0@ == key {
        i
    } else {
        first_key(s, key, i + 1)
    }
}

proof fn lemma_first_key_from<V>(s: Seq<(String, V)>, key: Seq<char>, i: int)
    requires
        0 <= i <= s.len(),
    ensures
        i <= first_key(s, key, i) <= s.len(),
    decreases s.len() - i,
{
    if i < s.len() && s[i].0@ != key {
        lemma_first_key_from(s, key, i + 1);
    }
}

fn find_key<V>(v: &Vec<(String, V)>, key: &str) -> (r: usize)
    ensures
        r == first_key(v@, key@, 0),
        r <= v@.len(),
{
    proof {
        lemma_first_key_from(v@, key@, 0);
    }
    let mut i: usize = 0;
    while i < v.len()
        invariant
            i <= v@.len(),
            first_key(v@, key@, 0) == first_key(v@, key@, i as int),
        decreases v.len() - i,
    {
        if str_eq(v[i].0.as_str(), key) {
            return i;
        }
        i = i + 1;
    }
    i
}

/// A command's APID, ID and parameter layout.
pub struct CommandSchemaWithId {
    pub apid: u16,
    pub command_id: u16,
    pub schema: CommandSchema,
}

/// The position of the last schema for `component` and `command` among the
/// first `n`, or the number of schemas.
pub open spec fn schema_key_last(
    s: Seq<((String, String), CommandSchemaWithId)>,
    component: Seq<char>,
    command: Seq<char>,
    n: int,
) -> int
    decreases n,
{
    if n <= 0 {
        s.len() as int
    } else if s[n - 1].0.0@ == component && s[n - 1].0.1@ == command {
        n - 1
    } else {
        schema_key_last(s, component, command, n - 1)
    }
}

/// The schema that counts for `component` and `command`: a later entry for
/// the same names replaces an earlier one.
pub open spec fn schema_key(
    s: Seq<((String, String), CommandSchemaWithId)>,
    component: Seq<char>,
    command: Seq<char>,
) -> int {
    schema_key_last(s, component, command, s.len() as int)
}

proof fn lemma_schema_key_bounds(
    s: Seq<((String, String), CommandSchemaWithId)>,
    component: Seq<char>,
    command: Seq<char>,
    n: int,
)
    requires
        0 <= n <= s.len(),
    ensures
        0 <= schema_key_last(s, component, command, n) <= s.len(),
    decreases n,
{
    if n > 0 && !(s[n - 1].0.0@ == component && s[n - 1].0.1@ == command) {
        lemma_schema_key_bounds(s, component, command, n - 1);
    }
}

/// Why a database command cannot be registered, if it cannot.
pub open spec fn command_error(c: (String, String, u16, Vec<ParamType>), apid_map: Seq<(String, u16)>) -> Option<
    RegistryError,
> {
    if first_key(apid_map, c.0@, 0) >= apid_map.len() {
        Some(RegistryError::NoApid)
    } else if !raw_last(c.3@) {
        Some(RegistryError::TrailerNotLast)
    } else {
        None
    }
}

/// How the prefix of `name` sends to its component.
pub open spec fn found_subsystem(reg: CommandRegistry, name: Seq<char>) -> CommandSubsystem {
    let t = split_name(name);
    let comps = reg.prefix_map@[first_key(reg.prefix_map@, t.0, 0)].1@;
    comps[first_key(comps, t.1, 0)].1
}

/// The schema entry of the command `name`.
pub open spec fn found_entry(reg: CommandRegistry, name: Seq<char>) -> CommandSchemaWithId {
    let t = split_name(name);
    reg.schema_map@[schema_key(reg.schema_map@, t.1, t.2)].1
}

/// Whether encoding `tco` with `parameters` succeeds, or why it fails.
pub open spec fn encode_outcome(reg: CommandRegistry, tco: Tco, parameters: Seq<ParamValue>) -> Result<(), CommandError> {
    let sub = found_subsystem(reg, tco.name@);
    let e = found_entry(reg, tco.name@);
    let ti = command_time_indicator(tco.params@, sub.has_time_indicator);
    if !command_found(&reg, tco.name@) {
        Err(CommandError::UnknownCommand)
    } else if e.apid >= 2048 || sub.destination_type >= 16 || sub.execution_type >= 16
        || e.schema.static_size > USER_DATA_CAPACITY {
        Err(CommandError::InvalidSchema)
    } else if ti is Err {
        Err(CommandError::TimeIndicator(ti->Err_0))
    } else if write_outcome(e.schema, USER_DATA_CAPACITY as nat, parameters, 0) is Err {
        Err(CommandError::Write(write_outcome(e.schema, USER_DATA_CAPACITY as nat, parameters, 0)->Err_0))
    } else {
        Ok(())
    }
}

/// `seg` is the TC segment that encoding `tco` with `parameters` gives.
pub open spec fn encoded_segment(reg: CommandRegistry, tco: Tco, parameters: Seq<ParamValue>, seg: Seq<u8>) -> bool {
    let sub = found_subsystem(reg, tco.name@);
    let e = found_entry(reg, tco.name@);
    let ti = command_time_indicator(tco.params@, sub.has_time_indicator);
    segment_of(
        e.apid,
        secondary_header_of(
            e.command_id,
            sub.destination_type,
            sub.execution_type,
            sub.has_time_indicator,
            ti->Ok_0,
        ),
        e.schema,
        parameters,
        seg,
    )
}

/// Command schemata by component and command name, and how each prefix
/// sends to each component.
pub struct CommandRegistry {
    pub prefix_map: Vec<(String, Vec<(String, CommandSubsystem)>)>,
    pub schema_map: Vec<((String, String), CommandSchemaWithId)>,
}

/// The conditions under which `lookup` finds a command.
pub open spec fn command_found(reg: &CommandRegistry, tco_name: Seq<char>) -> bool {
    let t = split_name(tco_name);
    let p = first_key(reg.prefix_map@, t.0, 0);
    &&& dots_before(tco_name, tco_name.len() as int).len() == 2
    &&& p < reg.prefix_map@.len()
    &&& first_key(reg.prefix_map@[p].1@, t.1, 0) < reg.prefix_map@[p].1@.len()
    &&& schema_key(reg.schema_map@, t.1, t.2) < reg.schema_map@.len()
}

/// Why a command could not be encoded.
#[derive(Debug, Clone, Copy, PartialEq, Eq, Structural)]
pub enum CommandError {
    /// No command of that name is registered.
    UnknownCommand,
    /// The command takes a time indicator and the TCO has no usable one.
    TimeIndicator(ReadError),
    /// The parameters do not fit the command's layout.
    Write(WriteError),
    /// The command's APID, destination or execution type does not fit its
    /// header field, or its parameters do not fit a segment.
    InvalidSchema,
}

/// Why a command registry could not be built.
#[derive(Debug, Clone, Copy, PartialEq, Eq, Structural)]
pub enum RegistryError {
    /// A component has no APID.
    NoApid,
    /// A raw parameter stands before another parameter.
    TrailerNotLast,
}

impl CommandRegistry {
    /// Every schema is well formed.
    pub open spec fn wf(&self) -> bool {
        forall|i: int| 0 <= i < self.schema_map@.len() ==> (#[trigger] self.schema_map@[i]).1.schema.wf()
    }

    /// Builds the registry from the database's commands, each given as
    /// component, name, code and parameter types, and the APID of each
    /// component.
    pub fn from_database(
        commands: Vec<(String, String, u16, Vec<ParamType>)>,
        apid_map: &Vec<(String, u16)>,
        prefix_map: Vec<(String, Vec<(String, CommandSubsystem)>)>,
    ) -> (r: Result<CommandRegistry, RegistryError>)
        requires
            forall|i: int| 0 <= i < commands@.len() ==> 64 * (#[trigger] commands@[i]).3@.len() + 64 <= usize::MAX,
        ensures
            r is Ok <==> forall|i: int| 0 <= i < commands@.len() ==> command_error(
                #[trigger] commands@[i],
                apid_map@,
            ) is None,
            r matches Err(e) ==> exists|i: int| 0 <= i < commands@.len() && command_error(
                #[trigger] commands@[i],
                apid_map@,
            ) == Some(e),
            r matches Ok(reg) ==> {
                &&& reg.wf()
                &&& reg.prefix_map@ == prefix_map@
                &&& reg.schema_map@.len() == commands@.len()
                &&& forall|i: int| 0 <= i < commands@.len() ==> {
                    let (component, name, code, params) = #[trigger] commands@[i];
                    let e = reg.schema_map@[i];
                    &&& e.0.0 == component
                    &&& e.0.1 == name
                    &&& e.1.command_id == code
                    &&& first_key(apid_map@, component@, 0) < apid_map@.len()
                    &&& e.1.apid == apid_map@[first_key(apid_map@, component@, 0)].1
                    &&& schema_from_params(e.1.schema, params@)
                }
            },
    {
        let ghost c0 = commands@;
        let mut rest = commands;
        let mut schema_map: Vec<((String, String), CommandSchemaWithId)> = Vec::new();
        let mut i: usize = 0;
        assert(c0.skip(0) =~= c0);
        assert(c0.len() == rest.len());
        while rest.len() > 0
            invariant
                c0.len() <= usize::MAX,
                i + rest@.len() == c0.len(),
                rest@ == c0.skip(i as int),
                schema_map@.len() == i,
                forall|j: int| 0 <= j < c0.len() ==> 64 * (#[trigger] c0[j]).3@.len() + 64 <= usize::MAX,
                c0 == commands@,
                forall|j: int| 0 <= j < i ==> (#[trigger] schema_map@[j]).1.schema.wf(),
                forall|j: int| 0 <= j < i ==> command_error(#[trigger] c0[j], apid_map@) is None,
                forall|j: int| 0 <= j < i ==> {
                    let (component, name, code, params) = #[trigger] c0[j];
                    let e = schema_map@[j];
                    &&& e.0.0 == component
                    &&& e.0.1 == name
                    &&& e.1.command_id == code
                    &&& first_key(apid_map@, component@, 0) < apid_map@.len()
                    &&& e.1.apid == apid_map@[first_key(apid_map@, component@, 0)].1
                    &&& schema_from_params(e.1.schema, params@)
                },
            decreases rest.len(),
        {
            let (component, name, code, params) = rest.remove(0);
            proof {
                assert(c0[i as int] == (component, name, code, params));
                assert(rest@ =~= c0.skip(i + 1));
            }
            let a = find_key(apid_map, component.as_str());
            if a >= apid_map.len() {
                assert(command_error(c0[i as int], apid_map@) == Some(RegistryError::NoApid));
                return Err(RegistryError::NoApid);
            }
            let apid = apid_map[a].1;
            let schema = match build_schema(&params) {
                Ok(s) => s,
                Err(_) => {
                    assert(command_error(c0[i as int], apid_map@) == Some(RegistryError::TrailerNotLast));
                    return Err(RegistryError::TrailerNotLast);
                },
            };
            schema_map.push(((component, name), CommandSchemaWithId { apid, command_id: code, schema }));
            i = i + 1;
        }
        Ok(CommandRegistry { prefix_map, schema_map })
    }

    /// Encodes a TCO into a TC segment: resolves the command, checks that
    /// its header values fit, reads the time indicator where the command
    /// takes one, and packs `parameters` (the TCO's positional values, in the
    /// widths of their slots).
    pub fn encode_command(&self, tco: &Tco, parameters: &Vec<ParamValue>) -> (r: Result<Vec<u8>, CommandError>)
        requires
            self.wf(),
        ensures
            !command_found(self, tco.name@) ==> r == Err::<Vec<u8>, CommandError>(CommandError::UnknownCommand),
            match encode_outcome(*self, *tco, parameters@) {
                Err(e) => r == Err::<Vec<u8>, CommandError>(e),
                Ok(()) => r matches Ok(seg) && encoded_segment(*self, *tco, parameters@, seg@),
            },
    {
        let fat_schema = match self.lookup(tco.name.as_str()) {
            Some(f) => f,
            None => return Err(CommandError::UnknownCommand),
        };
        if fat_schema.apid >= 2048 || fat_schema.destination_type >= 16 || fat_schema.execution_type >= 16
            || fat_schema.schema.static_size > USER_DATA_CAPACITY {
            return Err(CommandError::InvalidSchema);
        }
        proof {
            proof_reveal_time_indicator();
        }
        let time_indicator = if fat_schema.has_time_indicator {
            match Reader::new(tco).time_indicator() {
                Ok(t) => t,
                Err(e) => return Err(CommandError::TimeIndicator(e)),
            }
        } else {
            0
        };
        proof {
            let t = split_name(tco.name@);
            let k = schema_key(self.schema_map@, t.1, t.2);
            lemma_schema_key_bounds(self.schema_map@, t.1, t.2, self.schema_map@.len() as int);
            assert(self.schema_map@[k].1.schema.wf());
        }
        match build_tc_segment(&fat_schema, time_indicator, parameters) {
            Ok(seg) => Ok(seg),
            Err(e) => Err(CommandError::Write(e)),
        }
    }

    /// Resolves `prefix.component.command`: the prefix must list the
    /// component, and the component must have the command.
    pub fn lookup(&self, tco_name: &str) -> (r: Option<FatCommandSchema<'_>>)
        ensures
            r matches Some(f) ==> {
                let prefixes = self.prefix_map@;
                let schemas = self.schema_map@;
                let t = split_name(tco_name@);
                let p = first_key(prefixes, t.0, 0);
                &&& dots_before(tco_name@, tco_name@.len() as int).len() == 2
                &&& p < prefixes.len()
                &&& {
                    let comps = prefixes[p].1@;
                    let c = first_key(comps, t.1, 0);
                    let k = schema_key(schemas, t.1, t.2);
                    &&& c < comps.len()
                    &&& k < schemas.len()
                    &&& f.apid == schemas[k].1.apid
                    &&& f.command_id == schemas[k].1.command_id
                    &&& *f.schema == schemas[k].1.schema
                    &&& f.has_time_indicator == comps[c].1.has_time_indicator
                    &&& f.destination_type == comps[c].1.destination_type
                    &&& f.execution_type == comps[c].1.execution_type
                }
            },
            r is Some <==> {
                let t = split_name(tco_name@);
                let p = first_key(self.prefix_map@, t.0, 0);
                &&& dots_before(tco_name@, tco_name@.len() as int).len() == 2
                &&& p < self.prefix_map@.len()
                &&& first_key(self.prefix_map@[p].1@, t.1, 0) < self.prefix_map@[p].1@.len()
                &&& schema_key(self.schema_map@, t.1, t.2) < self.schema_map@.len()
            },
    {
        let name = match TcoName::from_str(tco_name) {
            Ok(n) => n,
            Err(_) => return None,
        };
        let p = find_key(&self.prefix_map, name.prefix.as_str());
        if p >= self.prefix_map.len() {
            return None;
        }
        let comps = &self.prefix_map[p].1;
        proof {
            lemma_first_key_from(self.prefix_map@, name.prefix@, 0);
        }
        let c = find_key(comps, name.component.as_str());
        if c >= comps.len() {
            return None;
        }
        let subsystem = comps[c].1;
        let mut n: usize = self.schema_map.len();
        while n > 0 && !(str_eq(self.schema_map[n - 1].0.0.as_str(), name.component.as_str()) && str_eq(
            self.schema_map[n - 1].0.1.as_str(),
            name.command.as_str(),
        ))
            invariant
                n <= self.schema_map@.len(),
                schema_key(self.schema_map@, name.component@, name.command@) == schema_key_last(
                    self.schema_map@,
                    name.component@,
                    name.command@,
                    n as int,
                ),
            decreases n,
        {
            n = n - 1;
        }
        if n == 0 {
            return None;
        }
        let k = n - 1;
        let entry = &self.schema_map[k].1;
        let r = FatCommandSchema {
            apid: entry.apid,
            command_id: entry.command_id,
            destination_type: subsystem.destination_type,
            execution_type: subsystem.execution_type,
            has_time_indicator: subsystem.has_time_indicator,
            schema: &entry.schema,
        };
        assert(schema_key(self.schema_map@, name.component@, name.command@) == k);
        Some(r)
    }
}

/// Why an AD command was not sent.
#[derive(Debug, Clone, Copy, PartialEq, Eq, Structural)]
pub enum AdCommandError {
    /// The command could not be encoded.
    Command(CommandError),
    /// FOP-1 is not in Active state.
    FopNotReady,
}

/// Sends a TCO reliably: encodes it into a TC segment and hands that to
/// FOP-1 as the next AD frame at `now`; returns the frame to transmit.
pub fn send_ad_command(
    fop: &mut Fop,
    registry: &CommandRegistry,
    tco: &Tco,
    parameters: &Vec<ParamValue>,
    now: u64,
    events: &mut Vec<FrameEvent>,
) -> (r: Result<Frame, AdCommandError>)
    requires
        registry.wf(),
    ensures
        match encode_outcome(*registry, *tco, parameters@) {
            Err(e) => r == Err::<Frame, AdCommandError>(AdCommandError::Command(e)) && final(fop)@ == old(
                fop,
            )@ && final(events)@ == old(events)@,
            Ok(()) => if old(fop)@.state is Active {
                r matches Ok(f) && {
                    let id = old(fop)@.next_frame_id;
                    let nf = old(fop)@.state->Active_next_fsn;
                    let sent = old(fop)@.state->Active_sent;
                    &&& encoded_segment(*registry, *tco, parameters@, f.data_field@)
                    &&& f@ == (FrameView {
                        id,
                        frame_type: FrameType::TypeAD,
                        sequence_number: nf,
                        data_field: f.data_field@,
                    })
                    &&& final(fop)@.next_frame_id == inc_id(id)
                    &&& final(fop)@.state == (FopStateView::Active {
                        next_fsn: nf.wrapping_add(1),
                        sent: sent.push(SentFrameView { frame: f@, sent_at: now }),
                    })
                    &&& final(fop)@.last_received_farm_state == old(fop)@.last_received_farm_state
                    &&& final(events)@ == old(events)@.push(FrameEvent::Transmit(id))
                }
            } else {
                r == Err::<Frame, AdCommandError>(AdCommandError::FopNotReady) && final(fop)@ == old(fop)@
                    && final(events)@ == old(events)@
            },
        },
{
    let segment = match registry.encode_command(tco, parameters) {
        Ok(seg) => seg,
        Err(e) => return Err(AdCommandError::Command(e)),
    };
    match fop.send_ad(segment, now, events) {
        Some(frame) => Ok(frame),
        None => Err(AdCommandError::FopNotReady),
    }
}

} // verus!
