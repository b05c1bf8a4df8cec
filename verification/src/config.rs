use vstd::prelude::*;

verus! {

use crate::models::machine::{Machine, MachineView};
use crate::models::recipe::{Recipe, RecipeView};
use crate::table::{kv_find, kv_put, lemma_kv_put_is_push, lemma_kv_put_is_update};

/// The catalog: immutable lookup tables built once from recipe and machine
/// records. `recipes` maps each unique recipe key to its recipe,
/// `recipes_by_output` maps each output item id to the keys of the recipes
/// producing it, and `machines` maps machine ids to machine records.
pub struct GameData {
    pub recipes: Vec<(String, Recipe)>,
    pub recipes_by_output: Vec<(String, Vec<String>)>,
    pub machines: Vec<(String, Machine)>,
}

/// Mathematical reading of a recipe table.
pub open spec fn recipes_view(s: Seq<(String, Recipe)>) -> Seq<(Seq<char>, RecipeView)> {
    s.map_values(|p: (String, Recipe)| (p.0@, p.1@))
}

/// Mathematical reading of the output index.
pub open spec fn index_view(s: Seq<(String, Vec<String>)>) -> Seq<(Seq<char>, Seq<Seq<char>>)> {
    s.map_values(|p: (String, Vec<String>)| (p.0@, p.1@.map_values(|k: String| k@)))
}

/// Mathematical reading of a machine table.
pub open spec fn machines_view(s: Seq<(String, Machine)>) -> Seq<(Seq<char>, MachineView)> {
    s.map_values(|p: (String, Machine)| (p.0@, p.1@))
}

/// One recipe record folded into the tables: normalized, keyed by its unique
/// id, the key registered under the record's output item, and the recipe
/// stored under the key (replacing any earlier recipe under the same key).
pub open spec fn spec_add_record(
    recipes: Seq<(Seq<char>, RecipeView)>,
    index: Seq<(Seq<char>, Seq<Seq<char>>)>,
    r: RecipeView,
) -> (Seq<(Seq<char>, RecipeView)>, Seq<(Seq<char>, Seq<Seq<char>>)>) {
    let nr = RecipeView { outputs: crate::models::recipe::normalized_outputs(r), ..r };
    let key = crate::models::recipe::unique_id_view(nr);
    let new_index = match kv_find(index, nr.id) {
        Some(keys) => kv_put(index, nr.id, keys.push(key)),
        None => kv_put(index, nr.id, seq![key]),
    };
    (kv_put(recipes, key, nr), new_index)
}

/// The recipe table and output index that a list of records builds, in
/// order.
pub open spec fn spec_build_tables(records: Seq<RecipeView>) -> (
    Seq<(Seq<char>, RecipeView)>,
    Seq<(Seq<char>, Seq<Seq<char>>)>,
)
    decreases records.len(),
{
    if records.len() == 0 {
        (Seq::<(Seq<char>, RecipeView)>::empty(), Seq::<(Seq<char>, Seq<Seq<char>>)>::empty())
    } else {
        let prev = spec_build_tables(records.drop_last());
        spec_add_record(prev.0, prev.1, records.last())
    }
}

/// The machine table a list of machine records builds: each keyed by its id,
/// later records replacing earlier ones with the same id.
pub open spec fn spec_build_machines(ms: Seq<MachineView>) -> Seq<(Seq<char>, MachineView)>
    decreases ms.len(),
{
    if ms.len() == 0 {
        Seq::<(Seq<char>, MachineView)>::empty()
    } else {
        kv_put(spec_build_machines(ms.drop_last()), ms.last().id, ms.last())
    }
}

/// Store `value` under `key` in a recipe table, replacing the first entry
/// under that key or appending a new one.
fn recipes_put(t: &mut Vec<(String, Recipe)>, key: &str, value: Recipe)
    ensures
        recipes_view(final(t)@) == kv_put(recipes_view(old(t)@), key@, value@),
{
    let mut i: usize = 0;
    while i < t.len()
        invariant
            i <= t@.len(),
            t@ == old(t)@,
            forall|j: int| 0 <= j < i ==> recipes_view(t@)[j].0 != key@,
        decreases t@.len() - i,
    {
        if crate::text::str_eq(t[i].0.as_str(), key) {
            let owned: String = key.to_owned();
            t.set(i, (owned, value));
            proof {
                lemma_kv_put_is_update(recipes_view(old(t)@), key@, value@, i as int);
                assert(recipes_view(t@) =~= recipes_view(old(t)@).update(
                    i as int,
                    (key@, value@),
                ));
            }
            return ;
        }
        i = i + 1;
    }
    let owned: String = key.to_owned();
    t.push((owned, value));
    proof {
        lemma_kv_put_is_push(recipes_view(old(t)@), key@, value@);
        assert(recipes_view(t@) =~= recipes_view(old(t)@).push((key@, value@)));
    }
}

/// Store `value` under `key` in a machine table, replacing the first entry
/// under that key or appending a new one.
fn machines_put(t: &mut Vec<(String, Machine)>, key: &str, value: Machine)
    ensures
        machines_view(final(t)@) == kv_put(machines_view(old(t)@), key@, value@),
{
    let mut i: usize = 0;
    while i < t.len()
        invariant
            i <= t@.len(),
            t@ == old(t)@,
            forall|j: int| 0 <= j < i ==> machines_view(t@)[j].0 != key@,
        decreases t@.len() - i,
    {
        if crate::text::str_eq(t[i].0.as_str(), key) {
            let owned: String = key.to_owned();
            t.set(i, (owned, value));
            proof {
                lemma_kv_put_is_update(machines_view(old(t)@), key@, value@, i as int);
                assert(machines_view(t@) =~= machines_view(old(t)@).update(
                    i as int,
                    (key@, value@),
                ));
            }
            return ;
        }
        i = i + 1;
    }
    let owned: String = key.to_owned();
    t.push((owned, value));
    proof {
        lemma_kv_put_is_push(machines_view(old(t)@), key@, value@);
        assert(machines_view(t@) =~= machines_view(old(t)@).push((key@, value@)));
    }
}

/// Register `key` under the output item `item`: appended to the item's key
/// list, or opening a fresh single-key list.
fn index_add(t: &mut Vec<(String, Vec<String>)>, item: &str, key: String)
    ensures
        index_view(final(t)@) == (match kv_find(index_view(old(t)@), item@) {
            Some(ks) => kv_put(index_view(old(t)@), item@, ks.push(key@)),
            None => kv_put(index_view(old(t)@), item@, seq![key@]),
        }),
{
    let mut i: usize = 0;
    while i < t.len()
        invariant
            i <= t@.len(),
            t@ == old(t)@,
            forall|j: int| 0 <= j < i ==> index_view(t@)[j].0 != item@,
        decreases t@.len() - i,
    {
        if crate::text::str_eq(t[i].0.as_str(), item) {
            proof {
                crate::table::lemma_kv_find_first(index_view(old(t)@), item@, i as int);
            }
            let mut entry: (String, Vec<String>) = t.remove(i);
            let ghost old_keys = entry.1@.map_values(|k: String| k@);
            entry.1.push(key);
            t.insert(i, entry);
            proof {
                lemma_kv_put_is_update(
                    index_view(old(t)@),
                    item@,
                    old_keys.push(key@),
                    i as int,
                );
                assert(entry.1@.map_values(|k: String| k@) =~= old_keys.push(key@));
                assert(t@ =~= old(t)@.update(i as int, entry));
                assert(index_view(t@) =~= index_view(old(t)@).update(
                    i as int,
                    (item@, old_keys.push(key@)),
                ));
            }
            return ;
        }
        i = i + 1;
    }
    proof {
        crate::table::lemma_kv_find_absent(index_view(t@), item@);
    }
    let owned: String = item.to_owned();
    let mut keys: Vec<String> = Vec::new();
    keys.push(key);
    proof {
        assert(keys@.map_values(|k: String| k@) =~= seq![key@]);
    }
    t.push((owned, keys));
    proof {
        lemma_kv_put_is_push(index_view(old(t)@), item@, seq![key@]);
        assert(index_view(t@) =~= index_view(old(t)@).push((item@, seq![key@])));
    }
}

impl GameData {
    /// Builds the catalog from recipe and machine records: each recipe is
    /// normalized, keyed by its unique id and registered under its output
    /// item, in order; machines are keyed by their ids. This is the
    /// normalizing, index-building step the engine relies on; rejecting
    /// malformed records is the loader's business before this point.
    pub fn from_records(records: Vec<Recipe>, machine_records: Vec<Machine>) -> (r: GameData)
        ensures
            recipes_view(r.recipes@) == spec_build_tables(
                records@.map_values(|x: Recipe| x@),
            ).0,
            index_view(r.recipes_by_output@) == spec_build_tables(
                records@.map_values(|x: Recipe| x@),
            ).1,
            machines_view(r.machines@) == spec_build_machines(
                machine_records@.map_values(|m: Machine| m@),
            ),
    {
        let ghost rec_views = records@.map_values(|x: Recipe| x@);
        let ghost mach_views = machine_records@.map_values(|m: Machine| m@);
        let n_records: usize = records.len();
        let n_machines: usize = machine_records.len();
        let mut recipes: Vec<(String, Recipe)> = Vec::new();
        let mut recipes_by_output: Vec<(String, Vec<String>)> = Vec::new();
        let mut machines: Vec<(String, Machine)> = Vec::new();
        let mut remaining: Vec<Recipe> = records;
        let mut i: usize = 0;
        proof {
            assert(rec_views.take(0) =~= Seq::<RecipeView>::empty());
            assert(recipes_view(recipes@) =~= Seq::<(Seq<char>, RecipeView)>::empty());
            assert(index_view(recipes_by_output@) =~= Seq::<
                (Seq<char>, Seq<Seq<char>>),
            >::empty());
            assert(remaining@ =~= records@.skip(0));
        }
        while remaining.len() > 0
            invariant
                i <= n_records,
                n_records == rec_views.len(),
                rec_views == records@.map_values(|x: Recipe| x@),
                remaining@ == records@.skip(i as int),
                recipes_view(recipes@) == spec_build_tables(rec_views.take(i as int)).0,
                index_view(recipes_by_output@) == spec_build_tables(
                    rec_views.take(i as int),
                ).1,
            decreases remaining@.len(),
        {
            let mut rec: Recipe = remaining.remove(0);
            proof {
                assert(rec == records@[i as int]);
                assert(remaining@ =~= records@.skip(i as int + 1));
                assert(rec@ == rec_views[i as int]);
            }
            rec.normalize();
            let key: String = rec.compute_unique_id();
            let ghost nr = rec@;
            index_add(&mut recipes_by_output, rec.id.as_str(), key.clone());
            recipes_put(&mut recipes, key.as_str(), rec);
            i = i + 1;
            proof {
                assert(rec_views.take(i as int).drop_last() =~= rec_views.take(i as int - 1));
                assert(rec_views.take(i as int).last() == rec_views[i as int - 1]);
            }
        }
        proof {
            assert(rec_views.take(rec_views.len() as int) =~= rec_views);
        }
        let mut remaining_machines: Vec<Machine> = machine_records;
        let mut k: usize = 0;
        proof {
            assert(mach_views.take(0) =~= Seq::<MachineView>::empty());
            assert(machines_view(machines@) =~= Seq::<(Seq<char>, MachineView)>::empty());
            assert(remaining_machines@ =~= machine_records@.skip(0));
        }
        while remaining_machines.len() > 0
            invariant
                k <= n_machines,
                n_machines == mach_views.len(),
                mach_views == machine_records@.map_values(|m: Machine| m@),
                remaining_machines@ == machine_records@.skip(k as int),
                machines_view(machines@) == spec_build_machines(mach_views.take(k as int)),
            decreases remaining_machines@.len(),
        {
            let m: Machine = remaining_machines.remove(0);
            proof {
                assert(m == machine_records@[k as int]);
                assert(remaining_machines@ =~= machine_records@.skip(k as int + 1));
                assert(m@ == mach_views[k as int]);
            }
            let id: String = m.id.clone();
            machines_put(&mut machines, id.as_str(), m);
            k = k + 1;
            proof {
                assert(mach_views.take(k as int).drop_last() =~= mach_views.take(k as int - 1));
                assert(mach_views.take(k as int).last() == mach_views[k as int - 1]);
            }
        }
        proof {
            assert(mach_views.take(mach_views.len() as int) =~= mach_views);
        }
        GameData { recipes, recipes_by_output, machines }
    }
}

} // verus!
