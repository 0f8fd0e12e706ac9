//! The attribute merge registry: the strategy each attribute merges under,
//! and the pure binary combinators the strategies evaluate to.

use vstd::prelude::*;
use crate::QueryError;
use crate::str_eq;
use crate::nums::{
    spec_parse_int, spec_int_to_string, parse_int_str, int_to_string,
    lemma_parse_int_to_string,
};

verus! {

/// How two string-encoded values of one attribute combine.
#[derive(Clone, Copy, Debug, PartialEq, Eq, Structural)]
pub enum MergeType {
    And,
    Or,
    IntSum,
    NoOp,
}

/// Logical OR over the `"1"`/`"0"` encoding: `"1"` when either operand is
/// `"1"`, else `"0"`.
pub open spec fn spec_or_merge(a: Seq<char>, b: Seq<char>) -> Seq<char> {
    if a == "1"@ || b == "1"@ {
        "1"@
    } else {
        "0"@
    }
}

/// Logical AND over the `"1"`/`"0"` encoding: `"1"` only when both operands
/// are `"1"`, else `"0"`.
pub open spec fn spec_and_merge(a: Seq<char>, b: Seq<char>) -> Seq<char> {
    if a == "1"@ && b == "1"@ {
        "1"@
    } else {
        "0"@
    }
}

/// `s` denotes an integer that fits in an `i32`: what an integer-sum
/// operand must be.
pub open spec fn ok_i32(s: Seq<char>) -> bool {
    &&& spec_parse_int(s) is Some
    &&& i32::MIN <= spec_parse_int(s)->0 <= i32::MAX
}

/// Integer sum: both operands parsed as 32-bit signed integers and the
/// exact sum rendered back. `None` when either operand is malformed or out
/// of range.
pub open spec fn spec_int_sum(a: Seq<char>, b: Seq<char>) -> Option<Seq<char>> {
    if ok_i32(a) && ok_i32(b) {
        Some(spec_int_to_string(spec_parse_int(a)->0 + spec_parse_int(b)->0))
    } else {
        None
    }
}

/// The combinator of `t` applied to `a` and `b`; `None` exactly when an
/// integer-sum operand is invalid.
pub open spec fn spec_merge_attributes(a: Seq<char>, b: Seq<char>, t: MergeType) -> Option<
    Seq<char>,
> {
    match t {
        MergeType::Or => Some(spec_or_merge(a, b)),
        MergeType::And => Some(spec_and_merge(a, b)),
        MergeType::IntSum => spec_int_sum(a, b),
        MergeType::NoOp => Some(a),
    }
}

/// The fixed strategy table: first-flag attributes merge by OR, counted
/// statistics by integer sum, and every other attribute is left as is.
pub open spec fn spec_merge_type_of(attr: Seq<char>) -> MergeType {
    if attr == "firstbaron"@ || attr == "firstblood"@ || attr == "firsttower"@ {
        MergeType::Or
    } else if attr == "kills"@ || attr == "towers"@ || attr == "barons"@ || attr == "deaths"@
        || attr == "dragons"@ || attr == "golddiffat10"@ || attr == "golddiffat15"@ {
        MergeType::IntSum
    } else {
        MergeType::NoOp
    }
}

/// The merge strategy registered for `attribute`.
pub fn get_merge_type_of_attribute(attribute: &str) -> (r: MergeType)
    ensures
        r == spec_merge_type_of(attribute@),
{
    if str_eq(attribute, "firstbaron") || str_eq(attribute, "firstblood") || str_eq(
        attribute,
        "firsttower",
    ) {
        MergeType::Or
    } else if str_eq(attribute, "kills") || str_eq(attribute, "towers") || str_eq(
        attribute,
        "barons",
    ) || str_eq(attribute, "deaths") || str_eq(attribute, "dragons") || str_eq(
        attribute,
        "golddiffat10",
    ) || str_eq(attribute, "golddiffat15") {
        MergeType::IntSum
    } else {
        MergeType::NoOp
    }
}

/// OR-combines two `"1"`/`"0"`-encoded values.
pub fn or_merge_values(a: &str, b: &str) -> (r: String)
    ensures
        r@ == spec_or_merge(a@, b@),
{
    if str_eq(a, "1") || str_eq(b, "1") {
        String::from_str("1")
    } else {
        String::from_str("0")
    }
}

/// AND-combines two `"1"`/`"0"`-encoded values.
pub fn and_merge_values(a: &str, b: &str) -> (r: String)
    ensures
        r@ == spec_and_merge(a@, b@),
{
    if str_eq(a, "1") && str_eq(b, "1") {
        String::from_str("1")
    } else {
        String::from_str("0")
    }
}

/// Sums two decimal-encoded integers; an operand that is not a 32-bit
/// integer is an `InvalidIntegerOperand` error.
pub fn int_sum_merge_values(a: &str, b: &str) -> (r: Result<String, QueryError>)
    ensures
        match r {
            Ok(v) => spec_int_sum(a@, b@) == Some(v@),
            Err(e) => e == QueryError::InvalidIntegerOperand && spec_int_sum(a@, b@) is None,
        },
{
    let va = match parse_int_str(a) {
        Some(v) => v,
        None => {
            return Err(QueryError::InvalidIntegerOperand);
        },
    };
    let vb = match parse_int_str(b) {
        Some(v) => v,
        None => {
            return Err(QueryError::InvalidIntegerOperand);
        },
    };
    Ok(int_to_string(va as i64 + vb as i64))
}

/// Folds `b` into `a` under strategy `merge_type`.
pub fn merge_attributes(a: &str, b: &str, merge_type: MergeType) -> (r: Result<
    String,
    QueryError,
>)
    ensures
        match r {
            Ok(v) => spec_merge_attributes(a@, b@, merge_type) == Some(v@),
            Err(e) => e == QueryError::InvalidIntegerOperand && spec_merge_attributes(
                a@,
                b@,
                merge_type,
            ) is None,
        },
{
    match merge_type {
        MergeType::Or => Ok(or_merge_values(a, b)),
        MergeType::IntSum => int_sum_merge_values(a, b),
        MergeType::And => Ok(and_merge_values(a, b)),
        MergeType::NoOp => Ok(String::from_str(a)),
    }
}

/// An integer-sum merge result denotes the exact sum of its operands, and
/// is itself a valid operand exactly when that sum fits in an `i32`.
pub proof fn lemma_int_sum_merge_value(a: Seq<char>, b: Seq<char>)
    requires
        spec_int_sum(a, b) is Some,
    ensures
        spec_parse_int(spec_int_sum(a, b)->0) == Some(
            spec_parse_int(a)->0 + spec_parse_int(b)->0,
        ),
        ok_i32(spec_int_sum(a, b)->0) <==> i32::MIN <= spec_parse_int(a)->0 + spec_parse_int(b)->0
            <= i32::MAX,
{
    lemma_parse_int_to_string(spec_parse_int(a)->0 + spec_parse_int(b)->0);
}

/// Order independence of aggregation for the OR and integer-sum
/// strategies: folding `a` then `b` into a running value and continuing
/// with `c` gives the same result as folding `b` then `a` first, for every
/// operand triple on which the merges are defined.
pub proof fn lemma_merge_order_independent(a: Seq<char>, b: Seq<char>, c: Seq<char>, t: MergeType)
    requires
        t == MergeType::Or || t == MergeType::IntSum,
        spec_merge_attributes(a, b, t) is Some,
    ensures
        spec_merge_attributes(b, a, t) == spec_merge_attributes(a, b, t),
        spec_merge_attributes(spec_merge_attributes(b, a, t)->0, c, t) == spec_merge_attributes(
            spec_merge_attributes(a, b, t)->0,
            c,
            t,
        ),
{
}

} // verus!
