use vstd::prelude::*;

verus! {

use vstd::seq_lib::seq_to_set_is_finite;
use vstd::set::{axiom_set_difference_finite, axiom_set_remove_len};
use crate::config::{index_view, machines_view, recipes_view};
use crate::constants::missing_machine_id;
use crate::models::machine::{Machine, MachineView};
use crate::models::production::{
    full_load, node_view, nodes_view, NodeView, ProductionNode,
};
use crate::models::recipe::{Recipe, RecipeView};
use crate::planner::calculator::{
    calculate, ceil_div, spec_exact_machine_count, spec_output_per_craft,
};
use crate::planner::recipe_selector::{
    find_machine, select_best_recipe, spec_select_best_recipe,
};
use crate::planner::VisitingSet;
use crate::table::{kv_find, lemma_kv_find_none, lemma_kv_find_some_index};

// Termination of the resolver rests on one observation: every recursion step
// either marks a new catalog output item as being resolved, shrinking the set
// of output items not yet under resolution, or asks for an item the catalog
// cannot produce, which ends at once in an unresolved leaf.

/// The output item ids the catalog can produce.
pub open spec fn output_key_set(index: Seq<(Seq<char>, Seq<Seq<char>>)>) -> Set<Seq<char>> {
    index.map_values(|p: (Seq<char>, Seq<Seq<char>>)| p.0).to_set()
}

/// How many catalog output items are not currently being resolved.
pub open spec fn remaining_count(
    index: Seq<(Seq<char>, Seq<Seq<char>>)>,
    visiting: Set<Seq<char>>,
) -> nat {
    output_key_set(index).difference(visiting).len()
}

/// Whether the index lists the item, as a measure component.
pub open spec fn has_entry(index: Seq<(Seq<char>, Seq<Seq<char>>)>, item: Seq<char>) -> int {
    if kv_find(index, item) is Some {
        1
    } else {
        0
    }
}

/// An index entry for an item is the same thing as membership in the output
/// key set.
pub proof fn lemma_has_entry_iff(index: Seq<(Seq<char>, Seq<Seq<char>>)>, item: Seq<char>)
    ensures
        (kv_find(index, item) is Some) <==> output_key_set(index).contains(item),
{
    let mapped = index.map_values(|p: (Seq<char>, Seq<Seq<char>>)| p.0);
    if kv_find(index, item) is Some {
        lemma_kv_find_some_index(index, item);
        let j = choose|j: int|
            0 <= j < index.len() && index[j].0 == item && index[j].1 == kv_find(
                index,
                item,
            )->Some_0;
        assert(mapped[j] == item);
        assert(mapped.contains(item));
    }
    if output_key_set(index).contains(item) {
        assert(mapped.contains(item));
        let j = choose|j: int| 0 <= j < mapped.len() && mapped[j] == item;
        assert(index[j].0 == item);
        if kv_find(index, item) is None {
            lemma_kv_find_none(index, item);
        }
    }
}

/// Marking one more item shrinks the remaining count when the item is a
/// catalog output, and keeps it when it is not.
pub proof fn lemma_remaining_insert(
    index: Seq<(Seq<char>, Seq<Seq<char>>)>,
    visiting: Set<Seq<char>>,
    item: Seq<char>,
)
    requires
        !visiting.contains(item),
    ensures
        output_key_set(index).contains(item) ==> remaining_count(index, visiting.insert(item))
            < remaining_count(index, visiting),
        !output_key_set(index).contains(item) ==> remaining_count(index, visiting.insert(item))
            == remaining_count(index, visiting),
{
    let s = output_key_set(index);
    seq_to_set_is_finite(index.map_values(|p: (Seq<char>, Seq<Seq<char>>)| p.0));
    axiom_set_difference_finite(s, visiting);
    let d1 = s.difference(visiting);
    let d2 = s.difference(visiting.insert(item));
    assert(d2 =~= d1.remove(item));
    axiom_set_remove_len(d1, item);
    if s.contains(item) {
        assert(d1.contains(item));
    } else {
        assert(!d1.contains(item));
    }
}

/// Every output quantity the recipe lists is at least one craft's worth:
/// what the loader owes the engine of a well-formed catalog.
pub open spec fn recipe_outputs_positive(r: RecipeView) -> bool {
    forall|j: int| 0 <= j < r.outputs.len() ==> (#[trigger] r.outputs[j]).1 >= 1
}

/// Every recipe in the table has positive output quantities.
pub open spec fn recipes_outputs_positive(recipes: Seq<(Seq<char>, RecipeView)>) -> bool {
    forall|i: int| 0 <= i < recipes.len() ==> recipe_outputs_positive(#[trigger] recipes[i].1)
}

/// With positive output quantities, the output per craft is positive for
/// every item, the listed quantity or the default of one.
pub proof fn lemma_output_per_craft_positive(r: RecipeView, item: Seq<char>)
    requires
        recipe_outputs_positive(r),
    ensures
        spec_output_per_craft(r, item) >= 1,
{
    if kv_find(r.outputs, item) is Some {
        lemma_kv_find_some_index(r.outputs, item);
    }
}

/// A chosen candidate is one of the table's recipes.
pub proof fn lemma_best_of_is_candidate(
    cands: Seq<RecipeView>,
    machines: Seq<(Seq<char>, MachineView)>,
    visiting: Set<Seq<char>>,
)
    requires
        crate::planner::recipe_selector::spec_best_of(cands, machines, visiting) is Some,
    ensures
        cands.contains(
            crate::planner::recipe_selector::spec_best_of(cands, machines, visiting)->Some_0,
        ),
    decreases cands.len(),
{
    let best = crate::planner::recipe_selector::spec_best_of(cands, machines, visiting);
    if cands.len() > 0 {
        if best == Some(cands.last()) {
            assert(cands[cands.len() - 1] == cands.last());
        } else {
            lemma_best_of_is_candidate(cands.drop_last(), machines, visiting);
            let prev = crate::planner::recipe_selector::spec_best_of(
                cands.drop_last(),
                machines,
                visiting,
            );
            let j = choose|j: int|
                0 <= j < cands.drop_last().len() && cands.drop_last()[j] == prev->Some_0;
            assert(cands[j] == prev->Some_0);
        }
    }
}

/// Every candidate comes from the recipe table.
pub proof fn lemma_candidates_positive(
    recipes: Seq<(Seq<char>, RecipeView)>,
    keys: Seq<Seq<char>>,
)
    requires
        recipes_outputs_positive(recipes),
    ensures
        forall|j: int|
            0 <= j < crate::planner::recipe_selector::spec_candidates(recipes, keys).len()
                ==> recipe_outputs_positive(
                #[trigger] crate::planner::recipe_selector::spec_candidates(recipes, keys)[j],
            ),
    decreases keys.len(),
{
    let cands = crate::planner::recipe_selector::spec_candidates(recipes, keys);
    if keys.len() > 0 {
        lemma_candidates_positive(recipes, keys.drop_last());
        let rest = crate::planner::recipe_selector::spec_candidates(recipes, keys.drop_last());
        match kv_find(recipes, keys.last()) {
            Some(r) => {
                lemma_kv_find_some_index(recipes, keys.last());
                assert(forall|j: int| 0 <= j < rest.len() ==> cands[j] == rest[j]);
                assert(cands.last() == r);
            },
            None => {},
        }
    }
}

/// A recipe the selector picks from a positive-outputs table has positive
/// outputs itself.
pub proof fn lemma_selected_outputs_positive(
    recipes: Seq<(Seq<char>, RecipeView)>,
    index: Seq<(Seq<char>, Seq<Seq<char>>)>,
    machines: Seq<(Seq<char>, MachineView)>,
    item: Seq<char>,
    visiting: Set<Seq<char>>,
)
    requires
        recipes_outputs_positive(recipes),
        spec_select_best_recipe(recipes, index, machines, item, visiting) is Some,
    ensures
        recipe_outputs_positive(
            spec_select_best_recipe(recipes, index, machines, item, visiting)->Some_0,
        ),
        kv_find(index, item) is Some,
{
    let keys = kv_find(index, item)->Some_0;
    let cands = crate::planner::recipe_selector::spec_candidates(recipes, keys);
    lemma_best_of_is_candidate(cands, machines, visiting);
    lemma_candidates_positive(recipes, keys);
    let best = spec_select_best_recipe(recipes, index, machines, item, visiting)->Some_0;
    let j = choose|j: int| 0 <= j < cands.len() && cands[j] == best;
    assert(recipe_outputs_positive(cands[j]));
}

/// The demand one input places on its own resolution: the input quantity
/// times the required crafts, rounded up and saturating.
pub open spec fn spec_child_amount(qty: int, amount: int, opc: int) -> int
    recommends
        opc >= 1,
{
    let exact = ceil_div(qty * amount, opc);
    if exact > u32::MAX {
        u32::MAX as int
    } else {
        exact
    }
}

/// The machine count after rounding up and saturating.
pub open spec fn spec_machine_count_sat(time: int, amount: int, opc: int) -> u32 {
    let e = spec_exact_machine_count(time, amount, opc);
    if e > u32::MAX {
        u32::MAX
    } else {
        e as u32
    }
}

/// The load of a step: the exact fraction of required machine-time over
/// allocated machine-time, or the sentinel of one when no machine is
/// occupied or the count saturated.
pub open spec fn spec_load_of(time: int, amount: int, opc: int) -> crate::models::production::LoadRatio {
    let e = spec_exact_machine_count(time, amount, opc);
    if e == 0 || e > u32::MAX {
        full_load()
    } else {
        crate::models::production::LoadRatio {
            num: (time * amount) as u64,
            den: (opc * (crate::constants::PRODUCTION_TIME_WINDOW as int) * e) as u128,
        }
    }
}

/// The saturating power draw of `mc` machines.
pub open spec fn spec_power_usage_of(power: int, mc: int) -> u32 {
    if power * mc > u32::MAX {
        u32::MAX
    } else {
        (power * mc) as u32
    }
}

/// The resolved node for one item: what the chosen recipe, the quantity
/// calculation and the recursively resolved children make of it. `visiting`
/// here already holds the item itself.
pub open spec fn spec_build(
    recipes: Seq<(Seq<char>, RecipeView)>,
    index: Seq<(Seq<char>, Seq<Seq<char>>)>,
    machines: Seq<(Seq<char>, MachineView)>,
    recipe: RecipeView,
    item: Seq<char>,
    amount: u32,
    visiting: Set<Seq<char>>,
) -> NodeView
    decreases remaining_count(index, visiting), 1int, 1int, 0int,
{
    let machine = kv_find(machines, recipe.by);
    let machine_id = match machine {
        Some(m) => m.id,
        None => missing_machine_id(),
    };
    let power = match machine {
        Some(m) => m.power as int,
        None => 0,
    };
    let opc = spec_output_per_craft(recipe, item);
    let mc = spec_machine_count_sat(recipe.time as int, amount as int, opc);
    NodeView::Resolved {
        item_id: item,
        machine_id: machine_id,
        amount: amount,
        machine_count: mc,
        power_usage: spec_power_usage_of(power, mc as int),
        load: spec_load_of(recipe.time as int, amount as int, opc),
        inputs: spec_children(recipes, index, machines, recipe.inputs, amount, opc, visiting),
        is_source: recipe.is_source,
    }
}

/// The children of a resolved node: one per input in order, skipping inputs
/// already being resolved (the cycle-breaking policy), each resolved at its
/// own demand.
pub open spec fn spec_children(
    recipes: Seq<(Seq<char>, RecipeView)>,
    index: Seq<(Seq<char>, Seq<Seq<char>>)>,
    machines: Seq<(Seq<char>, MachineView)>,
    inputs: Seq<(Seq<char>, u32)>,
    amount: u32,
    opc: int,
    visiting: Set<Seq<char>>,
) -> Seq<NodeView>
    decreases remaining_count(index, visiting), 1int, 0int, inputs.len(),
{
    if inputs.len() == 0 {
        Seq::empty()
    } else {
        let rest = spec_children(recipes, index, machines, inputs.drop_last(), amount, opc, visiting);
        let input_id = inputs.last().0;
        let qty = inputs.last().1;
        if visiting.contains(input_id) {
            rest
        } else {
            proof {
                lemma_remaining_insert(index, visiting, input_id);
                lemma_has_entry_iff(index, input_id);
            }
            rest.push(
                spec_resolve(
                    recipes,
                    index,
                    machines,
                    input_id,
                    spec_child_amount(qty as int, amount as int, opc) as u32,
                    visiting,
                ),
            )
        }
    }
}

/// A computed load is a well-formed fraction whenever the inputs fit machine
/// words and the output per craft is positive.
pub proof fn lemma_spec_load_of_wf(time: int, amount: int, opc: int)
    requires
        0 <= time <= u32::MAX,
        0 <= amount <= u32::MAX,
        1 <= opc <= u32::MAX,
    ensures
        crate::models::production::load_wf(spec_load_of(time, amount, opc)),
{
    let e = spec_exact_machine_count(time, amount, opc);
    if 0 < e <= u32::MAX {
        let den0 = opc * (crate::constants::PRODUCTION_TIME_WINDOW as int);
        assert(0 <= time * amount <= 0xffff_ffffu64 * 0xffff_ffffu64 && 60 <= den0 <= 0xffff_ffffu64
            * 60) by (nonlinear_arith)
            requires
                0 <= time <= 0xffff_ffffu32,
                0 <= amount <= 0xffff_ffffu32,
                1 <= opc <= 0xffff_ffffu32,
                den0 == opc * (crate::constants::PRODUCTION_TIME_WINDOW as int),
                crate::constants::PRODUCTION_TIME_WINDOW == 60u64,
        ;
        assert(time * amount <= den0 * e && 1 <= den0 * e <= 0xffff_ffffu64 * 60 * 0xffff_ffffu32)
            by (nonlinear_arith)
            requires
                e == ((time * amount + den0 - 1) / den0),
                60 <= den0 <= 0xffff_ffffu64 * 60,
                0 <= time * amount,
                1 <= e <= 0xffff_ffffu32,
        ;
    }
}

/// Law: every node the resolver describes is well-formed — in particular
/// every load in the tree is a fraction in [0, 1] — so the aggregations may
/// be applied to any resolved plan.
pub proof fn lemma_spec_resolve_wf(
    recipes: Seq<(Seq<char>, RecipeView)>,
    index: Seq<(Seq<char>, Seq<Seq<char>>)>,
    machines: Seq<(Seq<char>, MachineView)>,
    item: Seq<char>,
    amount: u32,
    visiting: Set<Seq<char>>,
)
    requires
        recipes_outputs_positive(recipes),
    ensures
        crate::models::production::node_wf(
            spec_resolve(recipes, index, machines, item, amount, visiting),
        ),
    decreases remaining_count(index, visiting.insert(item)), has_entry(index, item), 2int, 0int,
{
    let vis1 = visiting.insert(item);
    match spec_select_best_recipe(recipes, index, machines, item, vis1) {
        None => {},
        Some(recipe) => {
            assert(kv_find(index, item) is Some);
            lemma_selected_outputs_positive(recipes, index, machines, item, vis1);
            lemma_spec_build_wf(recipes, index, machines, recipe, item, amount, vis1);
        },
    }
}

pub proof fn lemma_spec_build_wf(
    recipes: Seq<(Seq<char>, RecipeView)>,
    index: Seq<(Seq<char>, Seq<Seq<char>>)>,
    machines: Seq<(Seq<char>, MachineView)>,
    recipe: RecipeView,
    item: Seq<char>,
    amount: u32,
    visiting: Set<Seq<char>>,
)
    requires
        recipes_outputs_positive(recipes),
        recipe_outputs_positive(recipe),
        recipe.time <= u32::MAX,
    ensures
        crate::models::production::node_wf(
            spec_build(recipes, index, machines, recipe, item, amount, visiting),
        ),
    decreases remaining_count(index, visiting), 1int, 1int, 0int,
{
    let opc = spec_output_per_craft(recipe, item);
    lemma_output_per_craft_positive(recipe, item);
    lemma_spec_load_of_wf(recipe.time as int, amount as int, opc);
    lemma_spec_children_wf(recipes, index, machines, recipe.inputs, amount, opc, visiting);
}

pub proof fn lemma_spec_children_wf(
    recipes: Seq<(Seq<char>, RecipeView)>,
    index: Seq<(Seq<char>, Seq<Seq<char>>)>,
    machines: Seq<(Seq<char>, MachineView)>,
    inputs: Seq<(Seq<char>, u32)>,
    amount: u32,
    opc: int,
    visiting: Set<Seq<char>>,
)
    requires
        recipes_outputs_positive(recipes),
    ensures
        crate::models::production::nodes_wf(
            spec_children(recipes, index, machines, inputs, amount, opc, visiting),
        ),
    decreases remaining_count(index, visiting), 1int, 0int, inputs.len(),
{
    if inputs.len() > 0 {
        lemma_spec_children_wf(
            recipes,
            index,
            machines,
            inputs.drop_last(),
            amount,
            opc,
            visiting,
        );
        let rest = spec_children(
            recipes,
            index,
            machines,
            inputs.drop_last(),
            amount,
            opc,
            visiting,
        );
        let input_id = inputs.last().0;
        if !visiting.contains(input_id) {
            lemma_remaining_insert(index, visiting, input_id);
            lemma_has_entry_iff(index, input_id);
            let camt = spec_child_amount(inputs.last().1 as int, amount as int, opc) as u32;
            lemma_spec_resolve_wf(recipes, index, machines, input_id, camt, visiting);
            let child = spec_resolve(recipes, index, machines, input_id, camt, visiting);
            assert(rest.push(child).drop_last() =~= rest);
            assert(rest.push(child).last() == child);
        }
    }
}

/// Builds the resolved node for `item_id` from the chosen `recipe`: machine
/// lookup, quantity calculation, and one recursively resolved child per
/// input not currently being resolved. The visiting set, which already holds
/// `item_id`, is left exactly as found.
fn build_resolved_node(
    recipe: &Recipe,
    recipes: &Vec<(String, Recipe)>,
    recipes_by_output: &Vec<(String, Vec<String>)>,
    machines: &Vec<(String, Machine)>,
    item_id: &str,
    amount: u32,
    visiting: &mut VisitingSet,
) -> (r: ProductionNode)
    requires
        old(visiting).wf(),
        recipes_outputs_positive(recipes_view(recipes@)),
        recipe_outputs_positive(recipe@),
    ensures
        final(visiting).wf(),
        final(visiting)@ == old(visiting)@,
        r@ == spec_build(
            recipes_view(recipes@),
            index_view(recipes_by_output@),
            machines_view(machines@),
            recipe@,
            item_id@,
            amount,
            old(visiting)@,
        ),
    decreases remaining_count(index_view(recipes_by_output@), old(visiting)@), 1int, 1int, 0int,
{
    let ghost rv = recipes_view(recipes@);
    let ghost iv = index_view(recipes_by_output@);
    let ghost mv = machines_view(machines@);
    let ghost vis1 = visiting@;
    let machine: Option<&Machine> = find_machine(machines, recipe.by.as_str());
    let machine_id: String = match machine {
        Some(m) => m.id.clone(),
        None => "missing_machine".to_owned(),
    };
    proof {
        lemma_output_per_craft_positive(recipe@, item_id@);
    }
    let calc = calculate(recipe, machine, amount, item_id);
    let ghost opc = spec_output_per_craft(recipe@, item_id@);
    let mut children: Vec<ProductionNode> = Vec::new();
    let n: usize = recipe.inputs.len();
    let mut i: usize = 0;
    proof {
        assert(recipe@.inputs.take(0) =~= Seq::<(Seq<char>, u32)>::empty());
        assert(nodes_view(children@) =~= Seq::<NodeView>::empty());
    }
    while i < n
        invariant
            i <= n,
            n == recipe.inputs@.len(),
            recipe@.inputs.len() == n,
            visiting.wf(),
            visiting@ == vis1,
            vis1 == old(visiting)@,
            rv == recipes_view(recipes@),
            iv == index_view(recipes_by_output@),
            mv == machines_view(machines@),
            recipes_outputs_positive(rv),
            opc >= 1,
            calc.required_crafts.num == amount,
            calc.required_crafts.den == opc,
            nodes_view(children@) =~= spec_children(
                rv,
                iv,
                mv,
                recipe@.inputs.take(i as int),
                amount,
                opc,
                vis1,
            ),
        decreases n - i,
    {
        let input_id: String = recipe.inputs[i].0.clone();
        let qty: u32 = recipe.inputs[i].1;
        proof {
            let ghost pair = recipe.inputs@[i as int];
            assert(recipe@.inputs[i as int] == (pair.0@, pair.1));
            assert(recipe@.inputs.take(i as int + 1).drop_last() =~= recipe@.inputs.take(
                i as int,
            ));
            assert(recipe@.inputs.take(i as int + 1).last() == recipe@.inputs[i as int]);
        }
        let ghost prev_children = nodes_view(children@);
        if !visiting.contains(input_id.as_str()) {
            proof {
                assert((qty as int) * (amount as int) <= 0xffff_ffffu64 * 0xffff_ffffu64)
                    by (nonlinear_arith)
                    requires
                        qty <= 0xffff_ffffu32,
                        amount <= 0xffff_ffffu32,
                ;
            }
            let qn: u64 = (qty as u64) * (amount as u64);
            let den32: u32 = calc.required_crafts.den;
            let sub128: u128 = ((qn as u128) + (den32 as u128) - 1) / (den32 as u128);
            let sub_amount: u32 = if sub128 > (u32::MAX as u128) {
                u32::MAX
            } else {
                sub128 as u32
            };
            proof {
                assert(sub_amount as int == spec_child_amount(qty as int, amount as int, opc));
                lemma_remaining_insert(iv, vis1, input_id@);
                lemma_has_entry_iff(iv, input_id@);
            }
            let child: ProductionNode = resolve(
                recipes,
                recipes_by_output,
                machines,
                input_id.as_str(),
                sub_amount,
                visiting,
            );
            proof {
                assert(vis1.remove(input_id@) =~= vis1);
            }
            children.push(child);
            proof {
                assert(nodes_view(children@) =~= prev_children.push(child@));
            }
        }
        i = i + 1;
    }
    proof {
        assert(recipe@.inputs.take(n as int) =~= recipe@.inputs);
    }
    let result = ProductionNode::Resolved {
        item_id: item_id.to_owned(),
        machine_id,
        amount,
        machine_count: calc.machine_count,
        power_usage: calc.power_usage,
        load: calc.load,
        inputs: children,
        is_source: recipe.is_source,
    };
    proof {
        let sb = spec_build(rv, iv, mv, recipe@, item_id@, amount, vis1);
        let e = spec_exact_machine_count(recipe@.time as int, amount as int, opc);
        assert(calc.machine_count == spec_machine_count_sat(
            recipe@.time as int,
            amount as int,
            opc,
        ));
        assert(calc.load == spec_load_of(recipe@.time as int, amount as int, opc));
        assert(node_view(result)->Resolved_inputs =~= nodes_view(
            result->Resolved_inputs@,
        ));
        assert(node_view(result) =~= sb);
    }
    result
}

/// Recursively resolves production for `item_id` at rate `amount`: marks the
/// item as in progress, selects the best recipe under that mark, builds the
/// resolved node (or an unresolved leaf when no recipe is registered), and
/// unmarks the item on the way out, so that a sibling branch can resolve the
/// same item independently. Never fails: a missing recipe degrades to an
/// `Unresolved` node. Verified terminating for every catalog: each level of
/// recursion marks a new catalog output item or bottoms out at once.
pub fn resolve(
    recipes: &Vec<(String, Recipe)>,
    recipes_by_output: &Vec<(String, Vec<String>)>,
    machines: &Vec<(String, Machine)>,
    item_id: &str,
    amount: u32,
    visiting: &mut VisitingSet,
) -> (r: ProductionNode)
    requires
        old(visiting).wf(),
        recipes_outputs_positive(recipes_view(recipes@)),
    ensures
        final(visiting).wf(),
        final(visiting)@ == old(visiting)@.remove(item_id@),
        r@ == spec_resolve(
            recipes_view(recipes@),
            index_view(recipes_by_output@),
            machines_view(machines@),
            item_id@,
            amount,
            old(visiting)@,
        ),
    decreases remaining_count(
        index_view(recipes_by_output@),
        old(visiting)@.insert(item_id@),
    ), has_entry(index_view(recipes_by_output@), item_id@), 2int, 0int,
{
    let ghost rv = recipes_view(recipes@);
    let ghost iv = index_view(recipes_by_output@);
    let ghost mv = machines_view(machines@);
    let ghost vis0 = visiting@;
    visiting.insert(item_id.to_owned());
    let ghost vis1 = visiting@;
    let selected: Option<&Recipe> = select_best_recipe(
        item_id,
        recipes,
        recipes_by_output,
        machines,
        visiting,
    );
    let result: ProductionNode = match selected {
        Some(recipe) => {
            proof {
                lemma_selected_outputs_positive(rv, iv, mv, item_id@, vis1);
                assert(kv_find(iv, item_id@) is Some);
            }
            build_resolved_node(
                recipe,
                recipes,
                recipes_by_output,
                machines,
                item_id,
                amount,
                visiting,
            )
        },
        None => ProductionNode::Unresolved { item_id: item_id.to_owned(), amount },
    };
    visiting.remove(item_id);
    proof {
        assert(vis0.insert(item_id@).remove(item_id@) =~= vis0.remove(item_id@));
    }
    result
}

/// One resolution step: mark the item as in progress, pick the best recipe
/// under the enlarged visiting set, and either build the resolved node or
/// fall back to an unresolved leaf when the item has no recipe.
pub open spec fn spec_resolve(
    recipes: Seq<(Seq<char>, RecipeView)>,
    index: Seq<(Seq<char>, Seq<Seq<char>>)>,
    machines: Seq<(Seq<char>, MachineView)>,
    item: Seq<char>,
    amount: u32,
    visiting: Set<Seq<char>>,
) -> NodeView
    decreases remaining_count(index, visiting.insert(item)), has_entry(index, item), 2int, 0int,
{
    let vis1 = visiting.insert(item);
    match spec_select_best_recipe(recipes, index, machines, item, vis1) {
        None => NodeView::Unresolved { item_id: item, amount: amount },
        Some(recipe) => {
            proof {
                assert(kv_find(index, item) is Some);
            }
            spec_build(recipes, index, machines, recipe, item, amount, vis1)
        },
    }
}

} // verus!
