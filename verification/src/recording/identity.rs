//! The identity of a recording, as its summary section shows it.

use vstd::prelude::*;

verus! {

/// The name under which a summary identity is stored.
pub const MCAP_SUMMARY_IDENTITY_ALGORITHM: &'static str = "mcap-summary";

/// What tells one recording's summary from another's, as text.
#[derive(Clone, Debug, Eq, PartialEq)]
pub struct McapSummaryIdentity {
    value: String,
}

impl McapSummaryIdentity {
    pub closed spec fn spec_value(&self) -> Seq<char> {
        self.value@
    }

    pub fn new(value: String) -> (identity: Self)
        ensures
            identity.spec_value() == value@,
    {
        McapSummaryIdentity { value }
    }

    pub fn value(&self) -> (value: &str)
        ensures
            value@ == self.spec_value(),
    {
        self.value.as_str()
    }
}

} // verus!
