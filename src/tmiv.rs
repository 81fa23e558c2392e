use vstd::prelude::*;

use crate::names::str_eq;
use crate::sort::{is_sorted, lemma_sort_idempotent, lemma_sort_is_sorted, sort_by_key, sort_by_name, Keyed};

verus! {

/// The value of a telemetry field. A double is carried as its IEEE-754
/// bit pattern.
#[derive(Debug, Clone)]
pub enum TmivValue {
    Integer(i64),
    Double(u64),
    String(String),
    Enum(String),
    Bytes(Vec<u8>),
}

#[derive(Debug, Clone)]
pub struct TmivField {
    pub name: String,
    pub value: Option<TmivValue>,
}

/// An instant as seconds and nanoseconds since the Unix epoch.
#[derive(Debug, Clone, Copy, PartialEq, Eq, Structural)]
pub struct Timestamp {
    pub seconds: i64,
    pub nanos: i32,
}

/// A telemetry item view: a telemetry name, when it was received, and named
/// field values.
#[derive(Debug, Clone)]
pub struct Tmiv {
    pub name: String,
    pub plugin_received_time: u64,
    pub timestamp: Option<Timestamp>,
    pub fields: Vec<TmivField>,
}

impl Keyed for TmivField {
    open spec fn key(&self) -> Seq<char> {
        self.name@
    }

    fn key_str(&self) -> (r: &str) {
        self.name.as_str()
    }
}

#[allow(non_camel_case_types)]
#[derive(Debug, Clone, Copy, PartialEq, Eq, Structural)]
pub enum DataType {
    INTEGER,
    DOUBLE,
    STRING,
    ENUM,
    BYTES,
}

/// A label an enum field may take.
#[derive(Debug, Clone)]
pub struct Variant {
    pub name: String,
}

impl Keyed for Variant {
    open spec fn key(&self) -> Seq<char> {
        self.name@
    }

    fn key_str(&self) -> (r: &str) {
        self.name.as_str()
    }
}

#[derive(Debug, Clone)]
pub struct FieldSchema {
    pub name: String,
    pub data_type: DataType,
    pub variants: Vec<Variant>,
}

impl Keyed for FieldSchema {
    open spec fn key(&self) -> Seq<char> {
        self.name@
    }

    fn key_str(&self) -> (r: &str) {
        self.name.as_str()
    }
}

/// The fields a telemetry carries.
#[derive(Debug, Clone)]
pub struct Schema {
    pub name: String,
    pub fields: Vec<FieldSchema>,
}

impl Keyed for Schema {
    open spec fn key(&self) -> Seq<char> {
        self.name@
    }

    fn key_str(&self) -> (r: &str) {
        self.name.as_str()
    }
}

/// Why a TMIV does not match its schema.
#[derive(Debug, Clone, Copy, PartialEq, Eq, Structural)]
pub enum SanitizeError {
    /// No schema carries the telemetry's name.
    NoMatchedSchema,
    /// The number of fields differs from the schema's.
    FieldCountMismatch,
    /// Field `index` (in name order) has another name than the schema's.
    NameMismatch { index: usize },
    /// Field `index` carries no value.
    NoValue { index: usize },
    /// Field `index` has a value of another type than the schema's.
    TypeMismatch { index: usize },
    /// Field `index` holds a label that is not among the schema's variants.
    InvalidVariant { index: usize },
}

pub open spec fn value_matches(t: DataType, v: TmivValue) -> bool {
    match (t, v) {
        (DataType::INTEGER, TmivValue::Integer(_)) => true,
        (DataType::DOUBLE, TmivValue::Double(_)) => true,
        (DataType::STRING, TmivValue::String(_)) => true,
        (DataType::ENUM, TmivValue::Enum(_)) => true,
        (DataType::BYTES, TmivValue::Bytes(_)) => true,
        _ => false,
    }
}

/// Some variant of `vs` is named `label`.
pub open spec fn has_variant(vs: Seq<Variant>, label: Seq<char>) -> bool {
    exists|i: int| 0 <= i < vs.len() && (#[trigger] vs[i]).name@ == label
}

/// How field `p` fares against `s`.
pub open spec fn field_check(s: FieldSchema, p: TmivField, index: usize) -> Result<(), SanitizeError> {
    if s.name@ != p.name@ {
        Err(SanitizeError::NameMismatch { index })
    } else {
        match p.value {
            None => Err(SanitizeError::NoValue { index }),
            Some(v) => if !value_matches(s.data_type, v) {
                Err(SanitizeError::TypeMismatch { index })
            } else {
                match v {
                    TmivValue::Enum(label) => if has_variant(s.variants@, label@) {
                        Ok(())
                    } else {
                        Err(SanitizeError::InvalidVariant { index })
                    },
                    _ => Ok(()),
                }
            },
        }
    }
}

/// The first failure among fields `i..` of `p` against `s`.
pub open spec fn fields_check(s: Seq<FieldSchema>, p: Seq<TmivField>, i: int) -> Result<(), SanitizeError>
    decreases s.len() - i,
{
    if i >= s.len() || i >= p.len() {
        Ok(())
    } else {
        match field_check(s[i], p[i], i as usize) {
            Ok(()) => fields_check(s, p, i + 1),
            Err(e) => Err(e),
        }
    }
}

/// How fields in name order fare against a schema.
pub open spec fn schema_check(s: Schema, p: Seq<TmivField>) -> Result<(), SanitizeError> {
    if s.fields@.len() != p.len() {
        Err(SanitizeError::FieldCountMismatch)
    } else {
        fields_check(s.fields@, p, 0)
    }
}

/// The position of the first schema named `name`, or the number of schemata.
pub open spec fn find_index(s: Seq<Schema>, name: Seq<char>, i: int) -> int
    decreases s.len() - i,
{
    if i >= s.len() {
        s.len() as int
    } else if s[i].name@ == name {
        i
    } else {
        find_index(s, name, i + 1)
    }
}

/// How a telemetry named `name` with fields `p` in name order fares.
pub open spec fn set_check(s: Seq<Schema>, name: Seq<char>, p: Seq<TmivField>) -> Result<(), SanitizeError> {
    let k = find_index(s, name, 0);
    if k >= s.len() {
        Err(SanitizeError::NoMatchedSchema)
    } else {
        schema_check(s[k], p)
    }
}

impl FieldSchema {
    fn validate_name(&self, name: &str, index: usize) -> (r: Result<(), SanitizeError>)
        ensures
            r is Ok <==> self.name@ == name@,
            r is Err ==> r == Err::<(), SanitizeError>(SanitizeError::NameMismatch { index }),
    {
        if !str_eq(self.name.as_str(), name) {
            return Err(SanitizeError::NameMismatch { index });
        }
        Ok(())
    }

    fn validate_enum(&self, value: &str) -> (r: bool)
        ensures
            r == has_variant(self.variants@, value@),
    {
        let mut i: usize = 0;
        while i < self.variants.len()
            invariant
                i <= self.variants@.len(),
                forall|j: int| 0 <= j < i ==> (#[trigger] self.variants@[j]).name@ != value@,
            decreases self.variants.len() - i,
        {
            if str_eq(self.variants[i].name.as_str(), value) {
                return true;
            }
            i = i + 1;
        }
        false
    }

    fn validate_value(&self, value: &TmivValue) -> (r: bool)
        ensures
            r == value_matches(self.data_type, *value),
    {
        match (self.data_type, value) {
            (DataType::INTEGER, TmivValue::Integer(_)) => true,
            (DataType::DOUBLE, TmivValue::Double(_)) => true,
            (DataType::STRING, TmivValue::String(_)) => true,
            (DataType::ENUM, TmivValue::Enum(_)) => true,
            (DataType::BYTES, TmivValue::Bytes(_)) => true,
            _ => false,
        }
    }

    fn validate(&self, field: &TmivField, index: usize) -> (r: Result<(), SanitizeError>)
        ensures
            r == field_check(*self, *field, index),
    {
        self.validate_name(field.name.as_str(), index)?;
        match &field.value {
            None => Err(SanitizeError::NoValue { index }),
            Some(v) => if !self.validate_value(v) {
                Err(SanitizeError::TypeMismatch { index })
            } else {
                match v {
                    TmivValue::Enum(label) => if self.validate_enum(label.as_str()) {
                        Ok(())
                    } else {
                        Err(SanitizeError::InvalidVariant { index })
                    },
                    _ => Ok(()),
                }
            },
        }
    }

    fn normalize(self) -> (r: FieldSchema)
        ensures
            r.name == self.name,
            r.data_type == self.data_type,
            r.variants@ == sort_by_key(self.variants@),
    {
        FieldSchema { name: self.name, data_type: self.data_type, variants: sort_by_name(self.variants) }
    }
}

impl Schema {
    fn validate(&self, fields: &Vec<TmivField>) -> (r: Result<(), SanitizeError>)
        ensures
            r == schema_check(*self, fields@),
    {
        if self.fields.len() != fields.len() {
            return Err(SanitizeError::FieldCountMismatch);
        }
        let mut i: usize = 0;
        while i < self.fields.len()
            invariant
                self.fields@.len() == fields@.len(),
                i <= self.fields@.len(),
                fields_check(self.fields@, fields@, 0) == fields_check(self.fields@, fields@, i as int),
            decreases self.fields.len() - i,
        {
            let r = self.fields[i].validate(&fields[i], i);
            if r.is_err() {
                return r;
            }
            i = i + 1;
        }
        Ok(())
    }

    /// Orders the fields by name, and each field's variants by name.
    fn normalize(self) -> (r: Schema)
        ensures
            r.name == self.name,
            r.fields@.len() == self.fields@.len(),
            forall|i: int| 0 <= i < r.fields@.len() ==> (#[trigger] r.fields@[i]).name == sort_by_key(self.fields@)[i].name
                && r.fields@[i].data_type == sort_by_key(self.fields@)[i].data_type
                && r.fields@[i].variants@ == sort_by_key(sort_by_key(self.fields@)[i].variants@),
    {
        let sorted = sort_by_name(self.fields);
        proof {
            lemma_sort_is_sorted(self.fields@);
        }
        let ghost s = sorted@;
        let mut rest = sorted;
        let mut out: Vec<FieldSchema> = Vec::new();
        let mut i: usize = 0;
        assert(s.skip(0) =~= s);
        assert(s.len() == rest.len());
        while rest.len() > 0
            invariant
                s.len() <= usize::MAX,
                i + rest@.len() == s.len(),
                rest@ == s.skip(i as int),
                out@.len() == i,
                forall|j: int| 0 <= j < i ==> (#[trigger] out@[j]).name == s[j].name && out@[j].data_type
                    == s[j].data_type && out@[j].variants@ == sort_by_key(s[j].variants@),
            decreases rest.len(),
        {
            let x = rest.remove(0);
            proof {
                assert(x == s[i as int]);
                assert(rest@ =~= s.skip(i + 1));
            }
            out.push(x.normalize());
            i = i + 1;
        }
        Schema { name: self.name, fields: out }
    }
}

/// The telemetry schemata, ordered by name, each with its fields (and
/// their variants) ordered by name.
pub struct SchemaSet {
    schemata: Vec<Schema>,
}

impl SchemaSet {
    pub closed spec fn spec_schemata(&self) -> Seq<Schema> {
        self.schemata@
    }

    /// Orders the schemata, their fields and the fields' variants by name.
    pub fn new(schemata: Vec<Schema>) -> (r: SchemaSet)
        ensures
            r.spec_schemata().len() == schemata@.len(),
            forall|i: int| 0 <= i < schemata@.len() ==> (#[trigger] r.spec_schemata()[i]).name
                == sort_by_key(schemata@)[i].name && r.spec_schemata()[i].fields@.len()
                == sort_by_key(schemata@)[i].fields@.len(),
    {
        let sorted = sort_by_name(schemata);
        proof {
            lemma_sort_is_sorted(schemata@);
        }
        let ghost s = sorted@;
        let mut rest = sorted;
        let mut out: Vec<Schema> = Vec::new();
        let mut i: usize = 0;
        assert(s.skip(0) =~= s);
        assert(s.len() == rest.len());
        while rest.len() > 0
            invariant
                s.len() <= usize::MAX,
                i + rest@.len() == s.len(),
                rest@ == s.skip(i as int),
                out@.len() == i,
                forall|j: int| 0 <= j < i ==> (#[trigger] out@[j]).name == s[j].name && out@[j].fields@.len()
                    == s[j].fields@.len(),
            decreases rest.len(),
        {
            let x = rest.remove(0);
            proof {
                assert(x == s[i as int]);
                assert(rest@ =~= s.skip(i + 1));
            }
            out.push(x.normalize());
            i = i + 1;
        }
        SchemaSet::new_unchecked(out)
    }

    pub fn new_unchecked(schemata: Vec<Schema>) -> (r: SchemaSet)
        ensures
            r.spec_schemata() == schemata@,
    {
        SchemaSet { schemata }
    }

    pub fn find_schema_by_name(&self, name: &str) -> (r: Option<&Schema>)
        ensures
            ({
                let k = find_index(self.spec_schemata(), name@, 0);
                &&& r is Some <==> k < self.spec_schemata().len()
                &&& r matches Some(s) ==> *s == self.spec_schemata()[k]
            }),
    {
        let mut i: usize = 0;
        while i < self.schemata.len()
            invariant
                i <= self.schemata@.len(),
                find_index(self.schemata@, name@, 0) == find_index(self.schemata@, name@, i as int),
            decreases self.schemata.len() - i,
        {
            if str_eq(name, self.schemata[i].name.as_str()) {
                return Some(&self.schemata[i]);
            }
            i = i + 1;
        }
        None
    }

    /// Checks a TMIV whose fields are in name order against its schema.
    pub fn validate(&self, normalized_tmiv: &Tmiv) -> (r: Result<(), SanitizeError>)
        ensures
            r == set_check(self.spec_schemata(), normalized_tmiv.name@, normalized_tmiv.fields@),
    {
        let schema = match self.find_schema_by_name(normalized_tmiv.name.as_str()) {
            Some(s) => s,
            None => return Err(SanitizeError::NoMatchedSchema),
        };
        schema.validate(&normalized_tmiv.fields)
    }

    /// Orders the TMIV's fields by name and checks them against the schema
    /// of its name.
    pub fn sanitize(&self, tmiv: Tmiv) -> (r: Result<Tmiv, SanitizeError>)
        ensures
            match set_check(self.spec_schemata(), tmiv.name@, sort_by_key(tmiv.fields@)) {
                Ok(()) => r matches Ok(t) && t.name@ == tmiv.name@ && t.fields@ == sort_by_key(
                    tmiv.fields@,
                ) && t.plugin_received_time == tmiv.plugin_received_time && t.timestamp
                    == tmiv.timestamp,
                Err(e) => r == Err::<Tmiv, SanitizeError>(e),
            },
    {
        let normalized_tmiv = normalize_tmiv(tmiv);
        match self.validate(&normalized_tmiv) {
            Ok(()) => Ok(normalized_tmiv),
            Err(e) => Err(e),
        }
    }
}

fn normalize_tmiv(tmiv: Tmiv) -> (r: Tmiv)
    ensures
        r.name == tmiv.name,
        r.plugin_received_time == tmiv.plugin_received_time,
        r.timestamp == tmiv.timestamp,
        r.fields@ == sort_by_key(tmiv.fields@),
{
    Tmiv {
        name: tmiv.name,
        plugin_received_time: tmiv.plugin_received_time,
        timestamp: tmiv.timestamp,
        fields: sort_by_name(tmiv.fields),
    }
}

/// A TMIV that passes sanitising comes out with its fields in name order,
/// and passes again unchanged.
pub proof fn lemma_sanitize_idempotent(set: SchemaSet, name: Seq<char>, fields: Seq<TmivField>)
    requires
        set_check(set.spec_schemata(), name, sort_by_key(fields)) is Ok,
    ensures
        is_sorted(sort_by_key(fields)),
        sort_by_key(sort_by_key(fields)) == sort_by_key(fields),
        set_check(set.spec_schemata(), name, sort_by_key(sort_by_key(fields))) is Ok,
{
    lemma_sort_is_sorted(fields);
    lemma_sort_idempotent(fields);
}

/// The command and telemetry schemata served to clients.
pub struct TcoTmivSchema {
    pub tco: Vec<crate::tco::Schema>,
    pub tmiv: Vec<Schema>,
}

impl TcoTmivSchema {
    pub fn new(tco: Vec<crate::tco::Schema>, tmiv: Vec<Schema>) -> (r: TcoTmivSchema)
        ensures
            r.tco@ == tco@,
            r.tmiv@ == tmiv@,
    {
        TcoTmivSchema { tco, tmiv }
    }
}

} // verus!
