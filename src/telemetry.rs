use vstd::prelude::*;

use crate::handler::{HandleError, Hook};
use crate::tmiv::{self, Tmiv};

verus! {

/// The hook that sanitises TMIVs against their schemata.
pub struct SanitizeHook {
    pub schema_set: tmiv::SchemaSet,
}

impl SanitizeHook {
    pub fn new(schema_set: tmiv::SchemaSet) -> (r: SanitizeHook)
        ensures
            r.schema_set == schema_set,
    {
        SanitizeHook { schema_set }
    }

    /// The TMIV with its fields in name order, where it matches its schema.
    pub fn sanitize(&self, input: Tmiv) -> (r: Result<Tmiv, HandleError>)
        ensures
            match crate::tmiv::set_check(
                self.schema_set.spec_schemata(),
                input.name@,
                crate::sort::sort_by_key(input.fields@),
            ) {
                Ok(()) => r matches Ok(t) && t.name@ == input.name@ && t.fields@
                    == crate::sort::sort_by_key(input.fields@),
                Err(e) => r == Err::<Tmiv, HandleError>(HandleError::InvalidTelemetry(e)),
            },
    {
        match self.schema_set.sanitize(input) {
            Ok(t) => Ok(t),
            Err(e) => Err(HandleError::InvalidTelemetry(e)),
        }
    }
}

impl Hook<Tmiv> for SanitizeHook {
    type Output = Tmiv;

    fn hook(&mut self, tmiv: Tmiv) -> Result<Tmiv, HandleError> {
        self.sanitize(tmiv)
    }
}

/// Tells whether a name is a registered TMIV name.
pub trait CheckTmivName {
    fn check_tmiv_name(&self, tmiv_name: &str) -> bool;
}

impl CheckTmivName for tmiv::SchemaSet {
    fn check_tmiv_name(&self, tmiv_name: &str) -> bool {
        self.find_schema_by_name(tmiv_name).is_some()
    }
}

} // verus!
