//! Error taxonomy of the topology core.
//!
//! Transport and authorization failures are surfaced by the unverified shell
//! around this library; the variants here are the data-integrity failures the
//! core itself detects. "Not found" and "no such partition" are not errors:
//! they are ordinary outcomes (`None`) of the functions that produce them.

use vstd::prelude::*;

verus! {

/// A data-integrity failure detected while assembling or serving a topology
/// snapshot. Each variant identifies the stage that failed.
#[derive(Clone, Copy, PartialEq, Eq, Structural, Debug)]
pub enum TopologyError {
    /// A listed journal carried no specification.
    MissingJournalSpec,
    /// A listed journal carried no routing table.
    MissingJournalRoute,
    /// A schema's canonical text failed to parse as JSON, so it cannot be
    /// content-addressed.
    SchemaNotJson,
}

impl TopologyError {
    /// A short human-readable description of the stage that failed.
    pub fn describe(&self) -> (r: &'static str)
        ensures
            r@ == self.spec_describe(),
    {
        match self {
            TopologyError::MissingJournalSpec => "expected journal Spec",
            TopologyError::MissingJournalRoute => "expected journal Route",
            TopologyError::SchemaNotJson => "schema canonical form is not valid JSON",
        }
    }

    pub open spec fn spec_describe(&self) -> Seq<char> {
        match self {
            TopologyError::MissingJournalSpec => "expected journal Spec"@,
            TopologyError::MissingJournalRoute => "expected journal Route"@,
            TopologyError::SchemaNotJson => "schema canonical form is not valid JSON"@,
        }
    }
}

} // verus!
