use vstd::prelude::*;

use crate::names::str_eq;
use crate::sort::{is_sorted, lemma_sort_idempotent, lemma_sort_is_sorted, sort_by_key, sort_by_name, Keyed};

verus! {

/// The value of a telecommand parameter. A double is carried as its IEEE-754
/// bit pattern.
#[derive(Debug, Clone)]
pub enum TcoValue {
    Integer(i64),
    Double(u64),
    Bytes(Vec<u8>),
}

#[derive(Debug, Clone)]
pub struct TcoParam {
    pub name: String,
    pub value: Option<TcoValue>,
}

/// A telecommand object: a command name and named parameters.
#[derive(Debug, Clone)]
pub struct Tco {
    pub name: String,
    pub params: Vec<TcoParam>,
}

impl Keyed for TcoParam {
    open spec fn key(&self) -> Seq<char> {
        self.name@
    }

    fn key_str(&self) -> (r: &str) {
        self.name.as_str()
    }
}

#[allow(non_camel_case_types)]
#[derive(Debug, Clone, Copy, PartialEq, Eq, Structural)]
pub enum DataType {
    INTEGER,
    DOUBLE,
    BYTES,
}

#[derive(Debug, Clone)]
pub struct ParamSchema {
    pub name: String,
    pub data_type: DataType,
}

impl Keyed for ParamSchema {
    open spec fn key(&self) -> Seq<char> {
        self.name@
    }

    fn key_str(&self) -> (r: &str) {
        self.name.as_str()
    }
}

/// The parameters a command takes.
#[derive(Debug, Clone)]
pub struct Schema {
    pub name: String,
    pub params: Vec<ParamSchema>,
}

impl Keyed for Schema {
    open spec fn key(&self) -> Seq<char> {
        self.name@
    }

    fn key_str(&self) -> (r: &str) {
        self.name.as_str()
    }
}

/// Why a TCO does not match its schema.
#[derive(Debug, Clone, Copy, PartialEq, Eq, Structural)]
pub enum SanitizeError {
    /// No schema carries the command's name.
    NoMatchedSchema,
    /// The number of parameters differs from the schema's.
    ParamCountMismatch,
    /// Parameter `index` (in name order) has another name than the schema's.
    NameMismatch { index: usize },
    /// Parameter `index` carries no value.
    NoValue { index: usize },
    /// Parameter `index` has a value of another type than the schema's.
    TypeMismatch { index: usize },
}

pub open spec fn value_matches(t: DataType, v: TcoValue) -> bool {
    match (t, v) {
        (DataType::INTEGER, TcoValue::Integer(_)) => true,
        (DataType::DOUBLE, TcoValue::Double(_)) => true,
        (DataType::BYTES, TcoValue::Bytes(_)) => true,
        _ => false,
    }
}

/// How parameter `p` fares against `s`.
pub open spec fn param_check(s: ParamSchema, p: TcoParam, index: usize) -> Result<(), SanitizeError> {
    if s.name@ != p.name@ {
        Err(SanitizeError::NameMismatch { index })
    } else {
        match p.value {
            None => Err(SanitizeError::NoValue { index }),
            Some(v) => if value_matches(s.data_type, v) {
                Ok(())
            } else {
                Err(SanitizeError::TypeMismatch { index })
            },
        }
    }
}

/// The first failure among parameters `i..` of `p` against `s`.
pub open spec fn params_check(s: Seq<ParamSchema>, p: Seq<TcoParam>, i: int) -> Result<(), SanitizeError>
    decreases s.len() - i,
{
    if i >= s.len() || i >= p.len() {
        Ok(())
    } else {
        match param_check(s[i], p[i], i as usize) {
            Ok(()) => params_check(s, p, i + 1),
            Err(e) => Err(e),
        }
    }
}

/// How parameters in name order fare against a schema.
pub open spec fn schema_check(s: Schema, p: Seq<TcoParam>) -> Result<(), SanitizeError> {
    if s.params@.len() != p.len() {
        Err(SanitizeError::ParamCountMismatch)
    } else {
        params_check(s.params@, p, 0)
    }
}

/// The position of the first schema named `name`, or the number of schemata.
pub open spec fn find_index(s: Seq<Schema>, name: Seq<char>, i: int) -> int
    decreases s.len() - i,
{
    if i >= s.len() {
        s.len() as int
    } else if s[i].name@ == name {
        i
    } else {
        find_index(s, name, i + 1)
    }
}

/// How a command named `name` with parameters `p` in name order fares.
pub open spec fn set_check(s: Seq<Schema>, name: Seq<char>, p: Seq<TcoParam>) -> Result<(), SanitizeError> {
    let k = find_index(s, name, 0);
    if k >= s.len() {
        Err(SanitizeError::NoMatchedSchema)
    } else {
        schema_check(s[k], p)
    }
}

impl ParamSchema {
    fn validate_name(&self, name: &str, index: usize) -> (r: Result<(), SanitizeError>)
        ensures
            r is Ok <==> self.name@ == name@,
            r is Err ==> r == Err::<(), SanitizeError>(SanitizeError::NameMismatch { index }),
    {
        if !str_eq(self.name.as_str(), name) {
            return Err(SanitizeError::NameMismatch { index });
        }
        Ok(())
    }

    fn validate_value(&self, value: &TcoValue) -> (r: bool)
        ensures
            r == value_matches(self.data_type, *value),
    {
        match (self.data_type, value) {
            (DataType::INTEGER, TcoValue::Integer(_)) => true,
            (DataType::DOUBLE, TcoValue::Double(_)) => true,
            (DataType::BYTES, TcoValue::Bytes(_)) => true,
            _ => false,
        }
    }

    fn validate(&self, param: &TcoParam, index: usize) -> (r: Result<(), SanitizeError>)
        ensures
            r == param_check(*self, *param, index),
    {
        self.validate_name(param.name.as_str(), index)?;
        match &param.value {
            None => Err(SanitizeError::NoValue { index }),
            Some(v) => if self.validate_value(v) {
                Ok(())
            } else {
                Err(SanitizeError::TypeMismatch { index })
            },
        }
    }
}

impl Schema {
    fn validate(&self, params: &Vec<TcoParam>) -> (r: Result<(), SanitizeError>)
        ensures
            r == schema_check(*self, params@),
    {
        if self.params.len() != params.len() {
            return Err(SanitizeError::ParamCountMismatch);
        }
        let mut i: usize = 0;
        while i < self.params.len()
            invariant
                self.params@.len() == params@.len(),
                i <= self.params@.len(),
                params_check(self.params@, params@, 0) == params_check(self.params@, params@, i as int),
            decreases self.params.len() - i,
        {
            let r = self.params[i].validate(&params[i], i);
            if r.is_err() {
                return r;
            }
            i = i + 1;
        }
        Ok(())
    }

    fn normalize(self) -> (r: Schema)
        ensures
            r.name == self.name,
            r.params@ == sort_by_key(self.params@),
    {
        Schema { name: self.name, params: sort_by_name(self.params) }
    }
}

/// The command schemata, ordered by name, each with its parameters ordered
/// by name.
pub struct SchemaSet {
    schemata: Vec<Schema>,
}

impl SchemaSet {
    pub closed spec fn spec_schemata(&self) -> Seq<Schema> {
        self.schemata@
    }

    /// Orders the schemata and their parameters by name.
    pub fn new(schemata: Vec<Schema>) -> (r: SchemaSet)
        ensures
            r.spec_schemata().len() == schemata@.len(),
            forall|i: int| 0 <= i < schemata@.len() ==> (#[trigger] r.spec_schemata()[i]).name
                == sort_by_key(schemata@)[i].name && r.spec_schemata()[i].params@ == sort_by_key(
                sort_by_key(schemata@)[i].params@,
            ),
    {
        let sorted = sort_by_name(schemata);
        proof {
            lemma_sort_is_sorted(schemata@);
        }
        let ghost s = sorted@;
        let mut rest = sorted;
        let mut out: Vec<Schema> = Vec::new();
        let mut i: usize = 0;
        assert(s.skip(0) =~= s);
        assert(s.len() == rest.len());
        while rest.len() > 0
            invariant
                s.len() <= usize::MAX,
                i + rest@.len() == s.len(),
                rest@ == s.skip(i as int),
                out@.len() == i,
                forall|j: int| 0 <= j < i ==> (#[trigger] out@[j]).name == s[j].name && out@[j].params@
                    == sort_by_key(s[j].params@),
            decreases rest.len(),
        {
            let x = rest.remove(0);
            proof {
                assert(x == s[i as int]);
                assert(rest@ =~= s.skip(i + 1));
            }
            out.push(x.normalize());
            i = i + 1;
        }
        SchemaSet::new_unchecked(out)
    }

    pub fn new_unchecked(schemata: Vec<Schema>) -> (r: SchemaSet)
        ensures
            r.spec_schemata() == schemata@,
    {
        SchemaSet { schemata }
    }

    fn find_schema_by_name(&self, name: &str) -> (r: Option<&Schema>)
        ensures
            ({
                let k = find_index(self.spec_schemata(), name@, 0);
                &&& r is Some <==> k < self.spec_schemata().len()
                &&& r matches Some(s) ==> *s == self.spec_schemata()[k]
            }),
    {
        let mut i: usize = 0;
        while i < self.schemata.len()
            invariant
                i <= self.schemata@.len(),
                find_index(self.schemata@, name@, 0) == find_index(self.schemata@, name@, i as int),
            decreases self.schemata.len() - i,
        {
            if str_eq(name, self.schemata[i].name.as_str()) {
                return Some(&self.schemata[i]);
            }
            i = i + 1;
        }
        None
    }

    /// Checks a TCO whose parameters are in name order against its schema.
    pub fn validate(&self, normalized_tco: &Tco) -> (r: Result<(), SanitizeError>)
        ensures
            r == set_check(self.spec_schemata(), normalized_tco.name@, normalized_tco.params@),
    {
        let schema = match self.find_schema_by_name(normalized_tco.name.as_str()) {
            Some(s) => s,
            None => return Err(SanitizeError::NoMatchedSchema),
        };
        schema.validate(&normalized_tco.params)
    }

    /// Orders the TCO's parameters by name and checks them against the
    /// schema of its name.
    pub fn sanitize(&self, tco: Tco) -> (r: Result<Tco, SanitizeError>)
        ensures
            match set_check(self.spec_schemata(), tco.name@, sort_by_key(tco.params@)) {
                Ok(()) => r matches Ok(t) && t.name@ == tco.name@ && t.params@ == sort_by_key(
                    tco.params@,
                ),
                Err(e) => r == Err::<Tco, SanitizeError>(e),
            },
    {
        let normalized_tco = normalize_tco(tco);
        match self.validate(&normalized_tco) {
            Ok(()) => Ok(normalized_tco),
            Err(e) => Err(e),
        }
    }
}

fn normalize_tco(tco: Tco) -> (r: Tco)
    ensures
        r.name == tco.name,
        r.params@ == sort_by_key(tco.params@),
{
    Tco { name: tco.name, params: sort_by_name(tco.params) }
}

/// A TCO that passes sanitising comes out with its parameters in name
/// order, and passes again unchanged.
pub proof fn lemma_sanitize_idempotent(set: SchemaSet, name: Seq<char>, params: Seq<TcoParam>)
    requires
        set_check(set.spec_schemata(), name, sort_by_key(params)) is Ok,
    ensures
        is_sorted(sort_by_key(params)),
        sort_by_key(sort_by_key(params)) == sort_by_key(params),
        set_check(set.spec_schemata(), name, sort_by_key(sort_by_key(params))) is Ok,
{
    lemma_sort_is_sorted(params);
    lemma_sort_idempotent(params);
}

} // verus!
