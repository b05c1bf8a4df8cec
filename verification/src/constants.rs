use vstd::prelude::*;

verus! {

/// Planning horizon in seconds: target rates are "per minute" while recipe
/// cycle times are in seconds.
pub const PRODUCTION_TIME_WINDOW: u64 = 60;

/// Key that a recipe's output table may use to mean "this recipe's own id".
pub open spec fn self_reference_keyword() -> Seq<char> {
    "this"@
}

/// Machine id reported for a recipe whose `produced_by` machine is not in the
/// catalog (manual production).
pub open spec fn missing_machine_id() -> Seq<char> {
    "missing_machine"@
}

} // verus!
