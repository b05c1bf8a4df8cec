use vstd::prelude::*;

verus! {

use crate::config::{index_view, machines_view, recipes_view};
use crate::models::machine::{Machine, MachineView};
use crate::models::recipe::{Recipe, RecipeView};
use crate::planner::VisitingSet;
use crate::table::{kv_find, lemma_kv_find_absent, lemma_kv_find_first};
use crate::text::{chars_cmp, str_compare, str_eq};

/// Whether any of the recipe's inputs is currently being resolved: choosing
/// it would close a cycle.
pub open spec fn spec_has_cyclic_inputs(r: RecipeView, visiting: Set<Seq<char>>) -> bool {
    exists|i: int| 0 <= i < r.inputs.len() && visiting.contains(#[trigger] r.inputs[i].0)
}

/// Tier of the machine a recipe runs on; a machine the catalog does not list
/// counts as tier 0 (manual production).
pub open spec fn spec_tier_of(machines: Seq<(Seq<char>, MachineView)>, by: Seq<char>) -> int {
    match kv_find(machines, by) {
        Some(m) => m.tier as int,
        None => 0,
    }
}

/// Power of the machine a recipe runs on; a machine the catalog does not
/// list counts as power 0.
pub open spec fn spec_power_of(machines: Seq<(Seq<char>, MachineView)>, by: Seq<char>) -> int {
    match kv_find(machines, by) {
        Some(m) => m.power as int,
        None => 0,
    }
}

/// The total order on candidate recipes, -1, 0 or 1 comparing `a` to `b`,
/// most significant rule first: a recipe with no in-progress input outranks
/// a cyclic one; a source recipe outranks a non-source; a higher machine
/// tier wins; a lower power draw wins; and the lexicographically smaller
/// recipe id wins the final tie-break.
pub open spec fn spec_compare_candidates(
    a: RecipeView,
    b: RecipeView,
    machines: Seq<(Seq<char>, MachineView)>,
    visiting: Set<Seq<char>>,
) -> int {
    let cyc_a = spec_has_cyclic_inputs(a, visiting);
    let cyc_b = spec_has_cyclic_inputs(b, visiting);
    let tier_a = spec_tier_of(machines, a.by);
    let tier_b = spec_tier_of(machines, b.by);
    let power_a = spec_power_of(machines, a.by);
    let power_b = spec_power_of(machines, b.by);
    if cyc_a != cyc_b {
        if cyc_a {
            -1
        } else {
            1
        }
    } else if a.is_source != b.is_source {
        if b.is_source {
            -1
        } else {
            1
        }
    } else if tier_a != tier_b {
        if tier_a < tier_b {
            -1
        } else {
            1
        }
    } else if power_a != power_b {
        if power_a > power_b {
            -1
        } else {
            1
        }
    } else {
        chars_cmp(b.id, a.id)
    }
}

/// The candidate recipes registered for an item: the recipes its keys name,
/// in the order the index lists them, skipping keys with no recipe entry.
pub open spec fn spec_candidates(
    recipes: Seq<(Seq<char>, RecipeView)>,
    keys: Seq<Seq<char>>,
) -> Seq<RecipeView>
    decreases keys.len(),
{
    if keys.len() == 0 {
        Seq::empty()
    } else {
        let rest = spec_candidates(recipes, keys.drop_last());
        match kv_find(recipes, keys.last()) {
            Some(r) => rest.push(r),
            None => rest,
        }
    }
}

/// The chosen candidate: the maximum under the candidate order, a later
/// entry winning an exact tie.
pub open spec fn spec_best_of(
    cands: Seq<RecipeView>,
    machines: Seq<(Seq<char>, MachineView)>,
    visiting: Set<Seq<char>>,
) -> Option<RecipeView>
    decreases cands.len(),
{
    if cands.len() == 0 {
        None::<RecipeView>
    } else {
        match spec_best_of(cands.drop_last(), machines, visiting) {
            None => Some(cands.last()),
            Some(best) => if spec_compare_candidates(best, cands.last(), machines, visiting)
                == 1 {
                Some(best)
            } else {
                Some(cands.last())
            },
        }
    }
}

/// What `select_best_recipe` returns: nothing when the item has no
/// registered recipe keys, else the best candidate.
pub open spec fn spec_select_best_recipe(
    recipes: Seq<(Seq<char>, RecipeView)>,
    index: Seq<(Seq<char>, Seq<Seq<char>>)>,
    machines: Seq<(Seq<char>, MachineView)>,
    item: Seq<char>,
    visiting: Set<Seq<char>>,
) -> Option<RecipeView> {
    match kv_find(index, item) {
        None => None::<RecipeView>,
        Some(keys) => spec_best_of(spec_candidates(recipes, keys), machines, visiting),
    }
}

/// Among two candidates the selection keeps the greater under the order,
/// the later one on an exact tie.
pub proof fn lemma_best_of_pair(
    x: RecipeView,
    y: RecipeView,
    machines: Seq<(Seq<char>, MachineView)>,
    visiting: Set<Seq<char>>,
)
    ensures
        spec_best_of(seq![x, y], machines, visiting) == (if spec_compare_candidates(
            x,
            y,
            machines,
            visiting,
        ) == 1 {
            Some(x)
        } else {
            Some(y)
        }),
{
    reveal_with_fuel(spec_best_of, 3);
    let s = seq![x, y];
    assert(s.drop_last() =~= seq![x]);
    assert(seq![x].drop_last() =~= Seq::<RecipeView>::empty());
    assert(seq![x].last() == x);
    assert(s.last() == y);
}

/// Law: of two candidates for the same item, one with an input currently
/// being resolved and one without, the acyclic one is chosen, whatever
/// their machines' tiers and powers and whichever order they are listed in.
pub proof fn lemma_selector_prefers_acyclic(
    a: RecipeView,
    b: RecipeView,
    machines: Seq<(Seq<char>, MachineView)>,
    visiting: Set<Seq<char>>,
)
    requires
        spec_has_cyclic_inputs(a, visiting),
        !spec_has_cyclic_inputs(b, visiting),
    ensures
        spec_compare_candidates(a, b, machines, visiting) == -1,
        spec_compare_candidates(b, a, machines, visiting) == 1,
        spec_best_of(seq![a, b], machines, visiting) == Some(b),
        spec_best_of(seq![b, a], machines, visiting) == Some(b),
{
    lemma_best_of_pair(a, b, machines, visiting);
    lemma_best_of_pair(b, a, machines, visiting);
}

/// Law: of two candidates with the same cyclic and source status, the
/// higher machine tier wins; at equal tier the lower power wins; at equal
/// tier and power the lexicographically smaller recipe id wins. In each
/// case the winner is chosen whichever order the candidates are listed in.
pub proof fn lemma_selector_priority_order(
    a: RecipeView,
    b: RecipeView,
    machines: Seq<(Seq<char>, MachineView)>,
    visiting: Set<Seq<char>>,
)
    requires
        spec_has_cyclic_inputs(a, visiting) == spec_has_cyclic_inputs(b, visiting),
        a.is_source == b.is_source,
    ensures
        spec_tier_of(machines, a.by) > spec_tier_of(machines, b.by) ==> spec_best_of(
            seq![a, b],
            machines,
            visiting,
        ) == Some(a) && spec_best_of(seq![b, a], machines, visiting) == Some(a),
        spec_tier_of(machines, a.by) == spec_tier_of(machines, b.by) && spec_power_of(
            machines,
            a.by,
        ) < spec_power_of(machines, b.by) ==> spec_best_of(seq![a, b], machines, visiting)
            == Some(a) && spec_best_of(seq![b, a], machines, visiting) == Some(a),
        spec_tier_of(machines, a.by) == spec_tier_of(machines, b.by) && spec_power_of(
            machines,
            a.by,
        ) == spec_power_of(machines, b.by) && chars_cmp(a.id, b.id) < 0 ==> spec_best_of(
            seq![a, b],
            machines,
            visiting,
        ) == Some(a) && spec_best_of(seq![b, a], machines, visiting) == Some(a),
{
    lemma_best_of_pair(a, b, machines, visiting);
    lemma_best_of_pair(b, a, machines, visiting);
    crate::text::lemma_chars_cmp_range(a.id, b.id);
    crate::text::lemma_chars_cmp_antisym(a.id, b.id);
}

/// Recipe stored under a unique key, if any.
pub(crate) fn find_recipe<'a>(recipes: &'a Vec<(String, Recipe)>, key: &str) -> (r: Option<
    &'a Recipe,
>)
    ensures
        (match r {
            Some(rec) => kv_find(recipes_view(recipes@), key@) == Some(rec@),
            None => kv_find(recipes_view(recipes@), key@) is None,
        }),
{
    let n: usize = recipes.len();
    let mut i: usize = 0;
    while i < n
        invariant
            i <= n,
            n == recipes@.len(),
            forall|j: int| 0 <= j < i ==> recipes_view(recipes@)[j].0 != key@,
        decreases n - i,
    {
        if str_eq(recipes[i].0.as_str(), key) {
            proof {
                lemma_kv_find_first(recipes_view(recipes@), key@, i as int);
            }
            return Some(&recipes[i].1);
        }
        i = i + 1;
    }
    proof {
        lemma_kv_find_absent(recipes_view(recipes@), key@);
    }
    None
}

/// Machine stored under an id, if any.
pub(crate) fn find_machine<'a>(machines: &'a Vec<(String, Machine)>, id: &str) -> (r: Option<
    &'a Machine,
>)
    ensures
        (match r {
            Some(m) => kv_find(machines_view(machines@), id@) == Some(m@),
            None => kv_find(machines_view(machines@), id@) is None,
        }),
{
    let n: usize = machines.len();
    let mut i: usize = 0;
    while i < n
        invariant
            i <= n,
            n == machines@.len(),
            forall|j: int| 0 <= j < i ==> machines_view(machines@)[j].0 != id@,
        decreases n - i,
    {
        if str_eq(machines[i].0.as_str(), id) {
            proof {
                lemma_kv_find_first(machines_view(machines@), id@, i as int);
            }
            return Some(&machines[i].1);
        }
        i = i + 1;
    }
    proof {
        lemma_kv_find_absent(machines_view(machines@), id@);
    }
    None
}

/// The recipe keys registered for an output item, if any.
pub(crate) fn find_output_keys<'a>(index: &'a Vec<(String, Vec<String>)>, item: &str) -> (r:
    Option<&'a Vec<String>>)
    ensures
        (match r {
            Some(ks) => kv_find(index_view(index@), item@) == Some(
                ks@.map_values(|k: String| k@),
            ),
            None => kv_find(index_view(index@), item@) is None,
        }),
{
    let n: usize = index.len();
    let mut i: usize = 0;
    while i < n
        invariant
            i <= n,
            n == index@.len(),
            forall|j: int| 0 <= j < i ==> index_view(index@)[j].0 != item@,
        decreases n - i,
    {
        if str_eq(index[i].0.as_str(), item) {
            proof {
                lemma_kv_find_first(index_view(index@), item@, i as int);
            }
            return Some(&index[i].1);
        }
        i = i + 1;
    }
    proof {
        lemma_kv_find_absent(index_view(index@), item@);
    }
    None
}

/// Whether any of the recipe's inputs is in the visiting set.
pub fn has_cyclic_inputs(recipe: &Recipe, visiting: &VisitingSet) -> (r: bool)
    ensures
        r == spec_has_cyclic_inputs(recipe@, visiting@),
{
    let n: usize = recipe.inputs.len();
    let mut i: usize = 0;
    while i < n
        invariant
            i <= n,
            n == recipe.inputs@.len(),
            forall|j: int| 0 <= j < i ==> !visiting@.contains(#[trigger] recipe@.inputs[j].0),
        decreases n - i,
    {
        if visiting.contains(recipe.inputs[i].0.as_str()) {
            proof {
                assert(recipe@.inputs[i as int].0 == recipe.inputs@[i as int].0@);
            }
            return true;
        }
        i = i + 1;
    }
    false
}

/// Compare two candidates under the selection order.
fn compare_candidates(
    a: &Recipe,
    b: &Recipe,
    machines: &Vec<(String, Machine)>,
    visiting: &VisitingSet,
) -> (r: i8)
    ensures
        r as int == spec_compare_candidates(a@, b@, machines_view(machines@), visiting@),
{
    let cyc_a: bool = has_cyclic_inputs(a, visiting);
    let cyc_b: bool = has_cyclic_inputs(b, visiting);
    let ma: Option<&Machine> = find_machine(machines, a.by.as_str());
    let mb: Option<&Machine> = find_machine(machines, b.by.as_str());
    let tier_a: u32 = match ma {
        Some(m) => m.tier,
        None => 0,
    };
    let tier_b: u32 = match mb {
        Some(m) => m.tier,
        None => 0,
    };
    let power_a: u32 = match ma {
        Some(m) => m.power,
        None => 0,
    };
    let power_b: u32 = match mb {
        Some(m) => m.power,
        None => 0,
    };
    if cyc_a != cyc_b {
        if cyc_a {
            -1
        } else {
            1
        }
    } else if a.is_source != b.is_source {
        if b.is_source {
            -1
        } else {
            1
        }
    } else if tier_a != tier_b {
        if tier_a < tier_b {
            -1
        } else {
            1
        }
    } else if power_a != power_b {
        if power_a > power_b {
            -1
        } else {
            1
        }
    } else {
        str_compare(b.id.as_str(), a.id.as_str())
    }
}

/// Selects the recipe to use for `item_id`, by the fixed priority order:
/// acyclic over cyclic, source over processing, higher machine tier, lower
/// power, lexicographically smaller recipe id. Returns nothing exactly when
/// no recipe key is registered for the item.
pub fn select_best_recipe<'a>(
    item_id: &str,
    recipes: &'a Vec<(String, Recipe)>,
    recipes_by_output: &Vec<(String, Vec<String>)>,
    machines: &Vec<(String, Machine)>,
    visiting: &VisitingSet,
) -> (r: Option<&'a Recipe>)
    ensures
        (match r {
            Some(rec) => spec_select_best_recipe(
                recipes_view(recipes@),
                index_view(recipes_by_output@),
                machines_view(machines@),
                item_id@,
                visiting@,
            ) == Some(rec@),
            None => spec_select_best_recipe(
                recipes_view(recipes@),
                index_view(recipes_by_output@),
                machines_view(machines@),
                item_id@,
                visiting@,
            ) is None,
        }),
{
    let keys: &Vec<String> = match find_output_keys(recipes_by_output, item_id) {
        Some(ks) => ks,
        None => {
            return None;
        },
    };
    let ghost keys_v = keys@.map_values(|k: String| k@);
    let ghost rv = recipes_view(recipes@);
    let ghost mv = machines_view(machines@);
    let ghost vv = visiting@;
    let mut best: Option<&'a Recipe> = None;
    let n: usize = keys.len();
    let mut i: usize = 0;
    proof {
        assert(keys_v.take(0) =~= Seq::<Seq<char>>::empty());
    }
    while i < n
        invariant
            i <= n,
            n == keys@.len(),
            keys_v == keys@.map_values(|k: String| k@),
            rv == recipes_view(recipes@),
            mv == machines_view(machines@),
            vv == visiting@,
            (match best {
                Some(bb) => spec_best_of(spec_candidates(rv, keys_v.take(i as int)), mv, vv)
                    == Some(bb@),
                None => spec_best_of(spec_candidates(rv, keys_v.take(i as int)), mv, vv)
                    is None,
            }),
        decreases n - i,
    {
        let ghost prev_cands = spec_candidates(rv, keys_v.take(i as int));
        proof {
            assert(keys_v.take(i as int + 1).drop_last() =~= keys_v.take(i as int));
            assert(keys_v.take(i as int + 1).last() == keys_v[i as int]);
            assert(keys_v[i as int] == keys@[i as int]@);
        }
        match find_recipe(recipes, keys[i].as_str()) {
            None => {
                proof {
                    assert(spec_candidates(rv, keys_v.take(i as int + 1)) == prev_cands);
                }
            },
            Some(cand) => {
                proof {
                    let cands1 = spec_candidates(rv, keys_v.take(i as int + 1));
                    assert(cands1 == prev_cands.push(cand@));
                    assert(cands1.drop_last() =~= prev_cands);
                    assert(cands1.last() == cand@);
                }
                match best {
                    None => {
                        best = Some(cand);
                    },
                    Some(b) => {
                        let c: i8 = compare_candidates(b, cand, machines, visiting);
                        if c != 1 {
                            best = Some(cand);
                        }
                    },
                }
            },
        }
        i = i + 1;
    }
    proof {
        assert(keys_v.take(n as int) =~= keys_v);
    }
    best
}

} // verus!
