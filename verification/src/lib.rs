//! Consolidation-and-aggregation engine for esports match statistics.
//!
//! Per-player match rows are folded into per-game, per-team records; a
//! declarative query then filters the team records by attribute constraints
//! and aggregates the requested statistics with per-attribute merge
//! strategies.

use vstd::prelude::*;

pub mod nums;
pub mod merge;
pub mod attrmap;
pub mod team;
pub mod consolidate;
pub mod constraints;
pub mod query;

verus! {

/// Relies on `str`'s `PartialEq` implementation: string slices compare
/// equal exactly when their character sequences are equal.
#[verifier::external_body]
pub(crate) fn str_eq(a: &str, b: &str) -> (r: bool)
    ensures
        r == (a@ == b@),
{
    a == b
}

/// The reasons a consolidation or query run aborts.
///
/// The engine favours fail-fast behaviour: any malformed row attribute or
/// unrecognized enum string stops the whole run with one of these.
#[derive(Clone, Copy, Debug, PartialEq, Eq, Structural)]
pub enum QueryError {
    /// A required attribute (`gameid`, `team`, `result`, `league`, `side`,
    /// or a requested statistic's backing attribute) is absent.
    MissingAttribute,
    /// A `league` value does not name one of the known leagues.
    UnrecognizedLeague,
    /// A `side` value is neither `Blue` nor `Red`.
    UnrecognizedSide,
    /// An operand of an integer-sum merge is not a valid integer.
    InvalidIntegerOperand,
    /// A requested statistic has no implemented resolver.
    UnsupportedStatistic,
}

} // verus!
