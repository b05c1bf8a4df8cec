use vstd::prelude::*;

verus! {

use vstd::relations::{sorted_by, total_ordering};
use vstd::seq_lib::lemma_sorted_unique;
use vstd::seq_lib::lemma_multiset_commutative;
use crate::constants::self_reference_keyword;
use crate::table::{counts_view, kv_find, kv_put, kv_remove, count_put, count_remove};
use crate::text::{
    chars_cmp, chars_to_string, dec_str, lemma_chars_cmp_antisym, lemma_chars_cmp_eq,
    lemma_chars_cmp_range, lemma_chars_cmp_trans, push_dec, push_str_chars, str_compare,
};

/// A way to produce items: `inputs` consumed and `outputs` produced per cycle
/// of `time` seconds on the machine named by `by`. `id` names the output item
/// the recipe is registered under; several recipes may share it. `out` is the
/// single-output shorthand that `normalize` folds into `outputs`; `is_source`
/// marks raw extraction.
#[derive(Debug, Clone)]
pub struct Recipe {
    pub id: String,
    pub by: String,
    pub time: u32,
    pub out: Option<u32>,
    pub inputs: Vec<(String, u32)>,
    pub outputs: Vec<(String, u32)>,
    pub is_source: bool,
}

/// Mathematical reading of a recipe record.
#[verifier::ext_equal]
pub struct RecipeView {
    pub id: Seq<char>,
    pub by: Seq<char>,
    pub time: u32,
    pub out: Option<u32>,
    pub inputs: Seq<(Seq<char>, u32)>,
    pub outputs: Seq<(Seq<char>, u32)>,
    pub is_source: bool,
}

impl View for Recipe {
    type V = RecipeView;

    open spec fn view(&self) -> RecipeView {
        RecipeView {
            id: self.id@,
            by: self.by@,
            time: self.time,
            out: self.out,
            inputs: counts_view(self.inputs@),
            outputs: counts_view(self.outputs@),
            is_source: self.is_source,
        }
    }
}

/// Order on input entries: by key, lexicographically, then by quantity.
/// On tables with unique keys this is simply the key order.
pub open spec fn input_le() -> spec_fn((Seq<char>, u32), (Seq<char>, u32)) -> bool {
    |p: (Seq<char>, u32), q: (Seq<char>, u32)|
        chars_cmp(p.0, q.0) < 0 || (chars_cmp(p.0, q.0) == 0 && p.1 <= q.1)
}

/// The entry order is a total order, so a sorted arrangement of any entry
/// multiset is unique.
pub proof fn lemma_input_le_total_ordering()
    ensures
        total_ordering(input_le()),
{
    let le = input_le();
    assert forall|x: (Seq<char>, u32)| #[trigger] le(x, x) by {
        lemma_chars_cmp_eq(x.0, x.0);
    }
    assert forall|x: (Seq<char>, u32), y: (Seq<char>, u32)|
        #[trigger] le(x, y) && #[trigger] le(y, x) implies x == y by {
        lemma_chars_cmp_antisym(x.0, y.0);
        lemma_chars_cmp_eq(x.0, y.0);
    }
    assert forall|x: (Seq<char>, u32), y: (Seq<char>, u32), z: (Seq<char>, u32)|
        #[trigger] le(x, y) && #[trigger] le(y, z) implies le(x, z) by {
        lemma_chars_cmp_range(x.0, y.0);
        lemma_chars_cmp_range(y.0, z.0);
        lemma_chars_cmp_trans(x.0, y.0, z.0);
    }
    assert forall|x: (Seq<char>, u32), y: (Seq<char>, u32)| #[trigger] le(x, y) || #[trigger] le(
        y,
        x,
    ) by {
        lemma_chars_cmp_antisym(x.0, y.0);
        lemma_chars_cmp_range(x.0, y.0);
    }
}

/// One rendered input entry: `key:count`.
pub open spec fn entry_str(p: (Seq<char>, u32)) -> Seq<char> {
    p.0 + seq![':'] + dec_str(p.1 as int)
}

/// Rendered input entries joined with commas.
pub open spec fn joined_entries(s: Seq<(Seq<char>, u32)>) -> Seq<char>
    decreases s.len(),
{
    if s.len() == 0 {
        Seq::empty()
    } else if s.len() == 1 {
        entry_str(s[0])
    } else {
        joined_entries(s.drop_last()) + seq![','] + entry_str(s.last())
    }
}

/// The unique recipe key: `id@machine[k1:v1,k2:v2,...]` over the inputs in
/// sorted order, so that the key never depends on how the input table happens
/// to list its entries.
pub open spec fn unique_id_view(r: RecipeView) -> Seq<char> {
    r.id + seq!['@'] + r.by + seq!['['] + joined_entries(r.inputs.sort_by(input_le())) + seq![
        ']',
    ]
}

/// The outputs table after normalization: the single-output shorthand `out`
/// is folded in under the recipe's own id, and an entry under the
/// self-reference keyword is re-keyed to the recipe's own id.
pub open spec fn normalized_outputs(r: RecipeView) -> Seq<(Seq<char>, u32)> {
    let with_out = match r.out {
        Some(count) => kv_put(r.outputs, r.id, count),
        None => r.outputs,
    };
    match kv_find(with_out, self_reference_keyword()) {
        Some(count) => kv_put(kv_remove(with_out, self_reference_keyword()), r.id, count),
        None => with_out,
    }
}

impl Recipe {
    /// A recipe literal with no single-output shorthand, as tests build them.
    pub fn new_for_test(
        id: String,
        by: String,
        time: u32,
        inputs: Vec<(String, u32)>,
        outputs: Vec<(String, u32)>,
        is_source: bool,
    ) -> (r: Recipe)
        ensures
            (r@ == RecipeView {
                id: id@,
                by: by@,
                time: time,
                out: None::<u32>,
                inputs: counts_view(inputs@),
                outputs: counts_view(outputs@),
                is_source: is_source,
            }),
    {
        Recipe { id, by, time, out: None, inputs, outputs, is_source }
    }

    /// Fold the single-output shorthand and the self-reference keyword into
    /// the outputs table; afterwards only `outputs` need be consulted.
    pub fn normalize(&mut self)
        ensures
            (final(self)@ == RecipeView {
                outputs: normalized_outputs(old(self)@),
                ..old(self)@
            }),
    {
        if let Some(count) = self.out {
            let id: String = self.id.clone();
            count_put(&mut self.outputs, id.as_str(), count);
        }
        let removed: Option<u32> = count_remove(&mut self.outputs, "this");
        if let Some(count) = removed {
            let id: String = self.id.clone();
            count_put(&mut self.outputs, id.as_str(), count);
        } else {
            proof {
                let with_out = match old(self)@.out {
                    Some(c) => kv_put(old(self)@.outputs, old(self)@.id, c),
                    None => old(self)@.outputs,
                };
                crate::table::lemma_kv_find_none(with_out, self_reference_keyword());
                crate::table::lemma_kv_remove_absent(with_out, self_reference_keyword());
            }
        }
    }

    /// Render the unique recipe key from `id`, `by` and the sorted inputs.
    pub fn compute_unique_id(&self) -> (r: String)
        ensures
            r@ == unique_id_view(self@),
    {
        let sorted: Vec<(String, u32)> = sorted_input_entries(&self.inputs);
        let ghost sv = self@.inputs.sort_by(input_le());
        let mut buf: Vec<char> = Vec::new();
        push_str_chars(&mut buf, self.id.as_str());
        buf.push('@');
        push_str_chars(&mut buf, self.by.as_str());
        buf.push('[');
        let ghost head = self.id@ + seq!['@'] + self.by@ + seq!['['];
        proof {
            assert(sv.take(0) =~= Seq::<(Seq<char>, u32)>::empty());
            assert(buf@ =~= head + joined_entries(sv.take(0)));
        }
        let n: usize = sorted.len();
        let mut i: usize = 0;
        while i < n
            invariant
                i <= n,
                n == sorted@.len(),
                counts_view(sorted@) == sv,
                buf@ =~= head + joined_entries(sv.take(i as int)),
            decreases n - i,
        {
            if i > 0 {
                buf.push(',');
            }
            push_str_chars(&mut buf, sorted[i].0.as_str());
            buf.push(':');
            push_dec(&mut buf, sorted[i].1);
            proof {
                assert(sv[i as int] == (sorted@[i as int].0@, sorted@[i as int].1));
                assert(sv.take(i as int + 1).drop_last() =~= sv.take(i as int));
                assert(sv.take(i as int + 1).last() == sv[i as int]);
                assert(entry_str(sv[i as int]) =~= sorted@[i as int].0@ + seq![':'] + dec_str(
                    sorted@[i as int].1 as int,
                ));
            }
            i = i + 1;
        }
        buf.push(']');
        proof {
            assert(sv.take(n as int) =~= sv);
            assert(buf@ =~= unique_id_view(self@));
        }
        chars_to_string(buf)
    }
}

/// Whether entry `a` precedes entry `b` under the input entry order.
fn entry_le(a: &(String, u32), b: &(String, u32)) -> (r: bool)
    ensures
        r == input_le()((a.0@, a.1), (b.0@, b.1)),
{
    let c: i8 = str_compare(a.0.as_str(), b.0.as_str());
    if c < 0 {
        true
    } else if c == 0 {
        a.1 <= b.1
    } else {
        false
    }
}

/// The input entries rearranged into sorted order (insertion sort).
fn sorted_input_entries(inputs: &Vec<(String, u32)>) -> (r: Vec<(String, u32)>)
    ensures
        counts_view(r@) == counts_view(inputs@).sort_by(input_le()),
{
    broadcast use vstd::seq_lib::group_to_multiset_ensures;
    broadcast use vstd::multiset::group_multiset_axioms;

    let ghost target = counts_view(inputs@);
    let mut sorted: Vec<(String, u32)> = Vec::new();
    proof {
        assert(counts_view(sorted@) =~= Seq::<(Seq<char>, u32)>::empty());
        assert(target.take(0) =~= Seq::<(Seq<char>, u32)>::empty());
        assert(counts_view(sorted@).to_multiset() =~= target.take(0).to_multiset());
    }
    let n: usize = inputs.len();
    let mut i: usize = 0;
    while i < n
        invariant
            i <= n,
            n == inputs@.len(),
            target == counts_view(inputs@),
            sorted_by(counts_view(sorted@), input_le()),
            counts_view(sorted@).to_multiset() == target.take(i as int).to_multiset(),
        decreases n - i,
    {
        let key: String = inputs[i].0.clone();
        let value: u32 = inputs[i].1;
        let ghost x = (key@, value);
        let ghost prev = counts_view(sorted@);
        let mut p: usize = 0;
        while p < sorted.len() && entry_le(&sorted[p], &inputs[i])
            invariant
                i < n,
                n == inputs@.len(),
                p <= sorted@.len(),
                x == (key@, value),
                x == (inputs@[i as int].0@, inputs@[i as int].1),
                prev == counts_view(sorted@),
                forall|j: int| 0 <= j < p ==> #[trigger] input_le()(prev[j], x),
            decreases sorted@.len() - p,
        {
            proof {
                assert(prev[p as int] == (sorted@[p as int].0@, sorted@[p as int].1));
            }
            p = p + 1;
        }
        proof {
            lemma_input_le_total_ordering();
            if p < sorted@.len() {
                assert(prev[p as int] == (sorted@[p as int].0@, sorted@[p as int].1));
                assert(input_le()(x, prev[p as int]));
            }
        }
        sorted.insert(p, (key, value));
        proof {
            let le = input_le();
            let newv = prev.insert(p as int, x);
            prev.insert_ensures(p as int, x);
            assert forall|idx: int| 0 <= idx < counts_view(sorted@).len() implies counts_view(
                sorted@,
            )[idx] == newv[idx] by {
                sorted@.insert_ensures(p as int, (key, value));
                if idx < p {
                    assert(sorted@[idx] == sorted@.insert(p as int, (key, value))[idx]);
                }
            }
            assert(counts_view(sorted@) =~= newv);
            // the inserted list is still sorted
            assert forall|a1: int, b1: int| 0 <= a1 < b1 < newv.len() implies #[trigger] le(
                newv[a1],
                newv[b1],
            ) by {
                let pp = p as int;
                if b1 < pp {
                    assert(le(prev[a1], prev[b1]));
                } else if b1 == pp {
                    assert(le(prev[a1], x));
                } else if a1 < pp {
                    if a1 == b1 - 1 {
                        assert(le(prev[a1], x));
                        assert(le(x, prev[b1 - 1]));
                        assert(le(prev[a1], prev[b1 - 1]));
                    } else {
                        assert(le(prev[a1], prev[b1 - 1]));
                    }
                } else if a1 == pp {
                    assert(le(x, prev[pp]));
                    if b1 - 1 > pp {
                        assert(le(prev[pp], prev[b1 - 1]));
                    }
                    assert(le(x, prev[b1 - 1]));
                } else {
                    assert(le(prev[a1 - 1], prev[b1 - 1]));
                }
            }
            // the inserted list holds one more copy of x
            let sub1 = prev.subrange(0, p as int);
            let sub2 = prev.subrange(p as int, prev.len() as int);
            assert(newv =~= sub1.push(x) + sub2);
            lemma_multiset_commutative(sub1.push(x), sub2);
            lemma_multiset_commutative(sub1, sub2);
            assert(sub1 + sub2 =~= prev);
            let m1 = sub1.to_multiset();
            let m2 = sub2.to_multiset();
            sub1.to_multiset_ensures();
            assert(sub1.push(x).to_multiset() == m1.insert(x));
            assert(newv.to_multiset() == m1.insert(x).add(m2));
            assert(m1.insert(x).add(m2) =~= m1.add(m2).insert(x));
            assert(prev.to_multiset() == m1.add(m2));
            assert(newv.to_multiset() =~= prev.to_multiset().insert(x));
            assert(target.take(i as int + 1) =~= target.take(i as int).push(target[i as int]));
            assert(target[i as int] == x);
            target.take(i as int).to_multiset_ensures();
            assert(target.take(i as int).push(target[i as int]).to_multiset() == target.take(
                i as int,
            ).to_multiset().insert(target[i as int]));
            assert(target.take(i as int + 1).to_multiset() =~= target.take(
                i as int,
            ).to_multiset().insert(x));
        }
        i = i + 1;
    }
    proof {
        assert(target.take(n as int) =~= target);
        lemma_input_le_total_ordering();
        target.lemma_sort_by_ensures(input_le());
        lemma_sorted_unique(counts_view(sorted@), target.sort_by(input_le()), input_le());
        assert(counts_view(sorted@) =~= target.sort_by(input_le()));
    }
    sorted
}

/// Law: the unique recipe key does not depend on the order in which the
/// inputs table lists its entries. Two recipes with the same id, the same
/// machine and the same multiset of input entries render the same key.
pub proof fn lemma_unique_id_input_order(r1: RecipeView, r2: RecipeView)
    requires
        r1.id == r2.id,
        r1.by == r2.by,
        r1.inputs.to_multiset() == r2.inputs.to_multiset(),
    ensures
        unique_id_view(r1) == unique_id_view(r2),
{
    lemma_input_le_total_ordering();
    r1.inputs.lemma_sort_by_ensures(input_le());
    r2.inputs.lemma_sort_by_ensures(input_le());
    lemma_sorted_unique(
        r1.inputs.sort_by(input_le()),
        r2.inputs.sort_by(input_le()),
        input_le(),
    );
}

} // verus!
