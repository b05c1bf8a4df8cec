use vstd::prelude::*;

verus! {

/// A production facility type: a capability rank (`tier`, higher preferred)
/// and the power each running unit draws.
#[derive(Debug, Clone)]
pub struct Machine {
    pub id: String,
    pub tier: u32,
    pub power: u32,
}

/// Mathematical reading of a machine record.
#[verifier::ext_equal]
pub struct MachineView {
    pub id: Seq<char>,
    pub tier: u32,
    pub power: u32,
}

impl View for Machine {
    type V = MachineView;

    open spec fn view(&self) -> MachineView {
        MachineView { id: self.id@, tier: self.tier, power: self.power }
    }
}

} // verus!
