use vstd::prelude::*;

use crate::handler::{HandleError, Hook};
use crate::tco::{self, Tco};

verus! {

/// The hook that sanitises TCOs against their schemata.
pub struct SanitizeHook {
    pub schema_set: tco::SchemaSet,
}

impl SanitizeHook {
    pub fn new(schema_set: tco::SchemaSet) -> (r: SanitizeHook)
        ensures
            r.schema_set == schema_set,
    {
        SanitizeHook { schema_set }
    }

    /// The TCO with its parameters in name order, where it matches its
    /// schema.
    pub fn sanitize(&self, input: Tco) -> (r: Result<Tco, HandleError>)
        ensures
            match crate::tco::set_check(
                self.schema_set.spec_schemata(),
                input.name@,
                crate::sort::sort_by_key(input.params@),
            ) {
                Ok(()) => r matches Ok(t) && t.name@ == input.name@ && t.params@
                    == crate::sort::sort_by_key(input.params@),
                Err(e) => r == Err::<Tco, HandleError>(HandleError::InvalidCommand(e)),
            },
    {
        match self.schema_set.sanitize(input) {
            Ok(t) => Ok(t),
            Err(e) => Err(HandleError::InvalidCommand(e)),
        }
    }
}

impl Hook<Tco> for SanitizeHook {
    type Output = Tco;

    fn hook(&mut self, tco: Tco) -> Result<Tco, HandleError> {
        self.sanitize(tco)
    }
}

} // verus!
