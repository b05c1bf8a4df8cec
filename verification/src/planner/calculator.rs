use vstd::prelude::*;

verus! {

use crate::constants::PRODUCTION_TIME_WINDOW;
use crate::models::machine::Machine;
use crate::models::production::{full_load, load_wf, LoadRatio};
use crate::models::recipe::{Recipe, RecipeView};
use crate::table::{count_get, kv_find};

/// Crafting operations needed per time window, as the exact fraction
/// `num / den`: the target amount over the output quantity per craft.
#[derive(Debug, Clone, Copy, PartialEq, Eq, Structural)]
pub struct CraftRatio {
    pub num: u32,
    pub den: u32,
}

/// Result of the quantity calculation for a single recipe.
#[derive(Debug, Clone, Copy, PartialEq, Eq, Structural)]
pub struct ProductionCalculation {
    /// Crafting operations needed per time window.
    pub required_crafts: CraftRatio,
    /// Machines needed, rounded up (saturating at the largest count).
    pub machine_count: u32,
    /// Machine utilization in [0, 1].
    pub load: LoadRatio,
    /// Total power drawn by all machines of this step, saturating.
    pub power_usage: u32,
}

/// Output quantity of `item` per craft: the recipe's entry, defaulting to 1
/// when the recipe does not list the item.
pub open spec fn spec_output_per_craft(r: RecipeView, item: Seq<char>) -> int {
    match kv_find(r.outputs, item) {
        Some(c) => c as int,
        None => 1,
    }
}

/// Power drawn per unit of an optional machine; no machine means manual
/// production and draws nothing.
pub open spec fn spec_machine_power(machine: Option<&Machine>) -> int {
    match machine {
        Some(m) => m.power as int,
        None => 0,
    }
}

/// Integer ceiling of `num / den`.
pub open spec fn ceil_div(num: int, den: int) -> int
    recommends
        den >= 1,
{
    (num + den - 1) / den
}

/// Machines required before rounding to a representable count:
/// `ceil(time * amount / (opc * window))`, the ceiling of
/// `time * (amount / opc) / window`.
pub open spec fn spec_exact_machine_count(time: int, amount: int, opc: int) -> int
    recommends
        opc >= 1,
{
    ceil_div(time * amount, opc * (PRODUCTION_TIME_WINDOW as int))
}

/// What `calculate` promises of its result, given the recipe's cycle time,
/// the target amount and the output per craft.
pub open spec fn calculation_ensures(
    r: ProductionCalculation,
    time: int,
    amount: int,
    opc: int,
    power: int,
) -> bool {
    let exact = spec_exact_machine_count(time, amount, opc);
    &&& r.required_crafts.num == amount
    &&& r.required_crafts.den == opc
    &&& r.machine_count == (if exact > u32::MAX { u32::MAX as int } else { exact })
    &&& (r.machine_count == 0 ==> r.load == full_load())
    &&& (0 < exact <= u32::MAX ==> r.load.num == time * amount && r.load.den == opc * (
    PRODUCTION_TIME_WINDOW as int) * exact)
    &&& (exact > u32::MAX ==> r.load == full_load())
    &&& load_wf(r.load)
    &&& r.power_usage == (if power * r.machine_count > u32::MAX {
        u32::MAX as int
    } else {
        power * r.machine_count
    })
}

/// Calculates production requirements for a recipe: how many machines the
/// target rate needs, their load, and their power draw. Pure and total for
/// any target amount; the machine count and power saturate at the largest
/// representable values, and a step that needs no machine reports the
/// sentinel load of one.
pub fn calculate(
    recipe: &Recipe,
    machine: Option<&Machine>,
    target_amount: u32,
    item_id: &str,
) -> (r: ProductionCalculation)
    requires
        spec_output_per_craft(recipe@, item_id@) >= 1,
    ensures
        calculation_ensures(
            r,
            recipe@.time as int,
            target_amount as int,
            spec_output_per_craft(recipe@, item_id@),
            spec_machine_power(machine),
        ),
{
    let power: u32 = match machine {
        Some(m) => m.power,
        None => 0,
    };
    let opc: u32 = match count_get(&recipe.outputs, item_id) {
        Some(c) => c,
        None => 1,
    };
    proof {
        assert(opc as int == spec_output_per_craft(recipe@, item_id@));
    }
    proof {
        assert((recipe.time as int) * (target_amount as int) <= 0xffff_ffffu64 * 0xffff_ffffu64)
            by (nonlinear_arith)
            requires
                recipe.time <= 0xffff_ffffu32,
                target_amount <= 0xffff_ffffu32,
        ;
        assert((opc as int) * (PRODUCTION_TIME_WINDOW as int) <= 0xffff_ffffu64 * 60)
            by (nonlinear_arith)
            requires
                opc <= 0xffff_ffffu32,
                PRODUCTION_TIME_WINDOW == 60u64,
        ;
    }
    let num: u64 = (recipe.time as u64) * (target_amount as u64);
    let den: u64 = (opc as u64) * PRODUCTION_TIME_WINDOW;
    let ghost exact = spec_exact_machine_count(
        recipe@.time as int,
        target_amount as int,
        opc as int,
    );
    let (machine_count, load): (u32, LoadRatio) = if num == 0 {
        proof {
            assert(exact == 0) by (nonlinear_arith)
                requires
                    exact == ((0 + den - 1) / (den as int)),
                    den >= 60,
            ;
        }
        (0, LoadRatio::one())
    } else {
        let exact128: u128 = ((num as u128) + (den as u128) - 1) / (den as u128);
        proof {
            assert(exact128 == exact);
            assert(exact >= 1) by (nonlinear_arith)
                requires
                    exact == ((num + den - 1) / (den as int)),
                    den >= 1,
                    num >= 1,
            ;
        }
        if exact128 > (u32::MAX as u128) {
            (u32::MAX, LoadRatio::one())
        } else {
            proof {
                assert((den as int) * (exact128 as int) < 0x1_0000_0000_0000_0000_0000_0000_0000_0000int)
                    by (nonlinear_arith)
                    requires
                        den <= 0xffff_ffffu64 * 60,
                        exact128 <= 0xffff_ffffu32,
                ;
            }
            let lden: u128 = (den as u128) * exact128;
            proof {
                assert(num <= (den as int) * exact && (den as int) * exact >= 1)
                    by (nonlinear_arith)
                    requires
                        exact == ((num + den - 1) / (den as int)),
                        den >= 1,
                        num >= 1,
                ;
                assert((den as int) * exact == (opc as int) * (PRODUCTION_TIME_WINDOW as int)
                    * exact) by (nonlinear_arith)
                    requires
                        den == (opc as int) * (PRODUCTION_TIME_WINDOW as int),
                ;
            }
            (exact128 as u32, LoadRatio { num, den: lden })
        }
    };
    proof {
        assert((power as int) * (machine_count as int) <= 0xffff_ffffu64 * 0xffff_ffffu64)
            by (nonlinear_arith)
            requires
                power <= 0xffff_ffffu32,
                machine_count <= 0xffff_ffffu32,
        ;
    }
    let pu: u64 = (power as u64) * (machine_count as u64);
    let power_usage: u32 = if pu > (u32::MAX as u64) {
        u32::MAX
    } else {
        pu as u32
    };
    let result = ProductionCalculation {
        required_crafts: CraftRatio { num: target_amount, den: opc },
        machine_count,
        load,
        power_usage,
    };
    result
}

} // verus!
