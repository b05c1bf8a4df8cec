pub mod calculator;
pub mod dependency_resolver;
pub mod recipe_selector;

pub use calculator::ProductionCalculation;

use vstd::prelude::*;

verus! {

use crate::config::{index_view, machines_view, recipes_view};
use crate::models::machine::Machine;
use crate::models::production::{node_wf, ProductionNode};
use crate::models::recipe::Recipe;
use crate::text::str_eq;

/// Plans the production tree for a target item: the main entry point for
/// production planning. Resolves `item_id` at rate `amount` against the
/// catalog tables, returning the tree of resolved steps, with `Unresolved`
/// leaves exactly where an item has no registered recipe. The caller's
/// `visiting` set comes back as it went in (minus the target item, were it
/// ever present), and the resulting tree is well-formed, so every
/// aggregation may be applied to it.
pub fn plan_production(
    recipes: &Vec<(String, Recipe)>,
    recipes_by_output: &Vec<(String, Vec<String>)>,
    machines: &Vec<(String, Machine)>,
    item_id: &str,
    amount: u32,
    visiting: &mut VisitingSet,
) -> (r: ProductionNode)
    requires
        old(visiting).wf(),
        dependency_resolver::recipes_outputs_positive(recipes_view(recipes@)),
    ensures
        final(visiting).wf(),
        final(visiting)@ == old(visiting)@.remove(item_id@),
        r@ == dependency_resolver::spec_resolve(
            recipes_view(recipes@),
            index_view(recipes_by_output@),
            machines_view(machines@),
            item_id@,
            amount,
            old(visiting)@,
        ),
        node_wf(r@),
{
    let r = dependency_resolver::resolve(
        recipes,
        recipes_by_output,
        machines,
        item_id,
        amount,
        visiting,
    );
    proof {
        dependency_resolver::lemma_spec_resolve_wf(
            recipes_view(recipes@),
            index_view(recipes_by_output@),
            machines_view(machines@),
            item_id@,
            amount,
            old(visiting)@,
        );
    }
    r
}

/// The set of item ids currently being resolved on the active call path,
/// used to deprioritize and prune cyclic recipe choices. Scoped to one
/// top-level resolution call, never shared between plans.
#[derive(Debug)]
pub struct VisitingSet {
    items: Vec<String>,
}

impl View for VisitingSet {
    type V = Set<Seq<char>>;

    closed spec fn view(&self) -> Set<Seq<char>> {
        self.items@.map_values(|s: String| s@).to_set()
    }
}

impl VisitingSet {
    /// No entry is listed twice.
    pub closed spec fn wf(&self) -> bool {
        forall|i: int, j: int|
            0 <= i < j < self.items@.len() ==> self.items@[i]@ != self.items@[j]@
    }

    /// A freshly-initialized, empty set.
    pub fn new() -> (r: VisitingSet)
        ensures
            r@ == Set::<Seq<char>>::empty(),
            r.wf(),
    {
        let r = VisitingSet { items: Vec::new() };
        proof {
            assert(r.items@.map_values(|s: String| s@).to_set() =~= Set::<Seq<char>>::empty());
        }
        r
    }

    /// Whether `item` is currently being resolved.
    pub fn contains(&self, item: &str) -> (r: bool)
        ensures
            r == self@.contains(item@),
    {
        let ghost mapped = self.items@.map_values(|s: String| s@);
        let n: usize = self.items.len();
        let mut i: usize = 0;
        while i < n
            invariant
                i <= n,
                n == self.items@.len(),
                mapped == self.items@.map_values(|s: String| s@),
                forall|j: int| 0 <= j < i ==> mapped[j] != item@,
            decreases n - i,
        {
            if str_eq(self.items[i].as_str(), item) {
                proof {
                    assert(mapped[i as int] == item@);
                    assert(mapped.contains(item@));
                }
                return true;
            }
            i = i + 1;
        }
        proof {
            assert(forall|j: int| 0 <= j < mapped.len() ==> mapped[j] != item@);
            assert(!mapped.contains(item@));
        }
        false
    }

    /// Mark `item` as being resolved.
    pub fn insert(&mut self, item: String)
        requires
            old(self).wf(),
        ensures
            final(self)@ == old(self)@.insert(item@),
            final(self).wf(),
    {
        let present: bool = self.contains(item.as_str());
        if !present {
            let ghost mapped = self.items@.map_values(|s: String| s@);
            self.items.push(item);
            proof {
                let mapped2 = self.items@.map_values(|s: String| s@);
                assert(mapped2 =~= mapped.push(item@));
                assert forall|x: Seq<char>| mapped2.contains(x) implies mapped.contains(x) || x
                    == item@ by {
                    let j = choose|j: int| 0 <= j < mapped2.len() && mapped2[j] == x;
                    if j < mapped.len() {
                        assert(mapped[j] == x);
                    }
                }
                assert(mapped2[mapped.len() as int] == item@);
                assert(mapped2.contains(item@));
                assert forall|x: Seq<char>| mapped.contains(x) implies #[trigger] mapped2.contains(
                    x,
                ) by {
                    let j = choose|j: int| 0 <= j < mapped.len() && mapped[j] == x;
                    assert(mapped2[j] == x);
                }
                assert(mapped2.to_set() =~= mapped.to_set().insert(item@));
                assert forall|j: int| 0 <= j < mapped.len() implies mapped[j] != item@ by {
                    if mapped[j] == item@ {
                        assert(mapped.contains(item@));
                    }
                }
                assert forall|i2: int, j2: int|
                    0 <= i2 < j2 < self.items@.len() implies self.items@[i2]@ != self.items@[j2]@
                by {
                    if j2 < mapped.len() {
                        assert(old(self).items@[i2]@ != old(self).items@[j2]@);
                        assert(self.items@[i2] == old(self).items@[i2]);
                        assert(self.items@[j2] == old(self).items@[j2]);
                    } else {
                        assert(self.items@[i2]@ == mapped[i2]);
                        assert(self.items@[j2]@ == item@);
                    }
                }
            }
        } else {
            proof {
                assert(old(self)@.insert(item@) =~= old(self)@);
            }
        }
    }

    /// Unmark `item`: backtracking when its resolution finishes.
    pub fn remove(&mut self, item: &str)
        requires
            old(self).wf(),
        ensures
            final(self)@ == old(self)@.remove(item@),
            final(self).wf(),
    {
        let ghost mapped = self.items@.map_values(|s: String| s@);
        let n: usize = self.items.len();
        let mut i: usize = 0;
        while i < n
            invariant
                i <= n,
                n == self.items@.len(),
                self.wf(),
                self@ == old(self)@,
                self.items@ == old(self).items@,
                mapped == self.items@.map_values(|s: String| s@),
                forall|j: int| 0 <= j < i ==> mapped[j] != item@,
            decreases n - i,
        {
            if str_eq(self.items[i].as_str(), item) {
                self.items.remove(i);
                proof {
                    let mapped2 = self.items@.map_values(|s: String| s@);
                    assert(mapped2 =~= mapped.remove(i as int));
                    assert forall|x: Seq<char>| #[trigger] mapped2.contains(x) implies
                        mapped.contains(x) && x != item@ by {
                        let j = choose|j: int| 0 <= j < mapped2.len() && mapped2[j] == x;
                        if j < i {
                            assert(mapped[j] == x);
                        } else {
                            assert(mapped[j + 1] == x);
                        }
                    }
                    assert forall|x: Seq<char>|
                        mapped.contains(x) && x != item@ implies #[trigger] mapped2.contains(
                        x,
                    ) by {
                        let j = choose|j: int| 0 <= j < mapped.len() && mapped[j] == x;
                        if j < i {
                            assert(mapped2[j] == x);
                        } else {
                            assert(mapped[i as int] == item@);
                            assert(j != i);
                            assert(mapped2[j - 1] == x);
                        }
                    }
                    assert(mapped2.to_set() =~= mapped.to_set().remove(item@));
                }
                return ;
            }
            i = i + 1;
        }
        proof {
            assert(forall|j: int| 0 <= j < mapped.len() ==> mapped[j] != item@);
            assert(!mapped.to_set().contains(item@));
            assert(old(self)@.remove(item@) =~= old(self)@);
        }
    }
}

} // verus!
