use vstd::prelude::*;

verus! {

use crate::table::{count_get, count_put, counts_view, totals_map};

/// Fixed-point scale used when multiplying loads: one unit of load,
/// with 32 fractional bits.
pub const UTIL_ONE: u64 = 0x1_0000_0000;

/// Half of one percent step at the fixed-point scale: added before dividing
/// to round to the nearest percent.
pub const UTIL_HALF: u64 = 0x8000_0000;

/// A machine load as the exact fraction `num / den`. A step that needs
/// `num` machine-seconds of work per `den` available machine-seconds runs
/// its machines at this fraction of capacity.
#[derive(Debug, Clone, Copy, PartialEq, Eq, Structural)]
pub struct LoadRatio {
    pub num: u64,
    pub den: u128,
}

/// The sentinel load of a step that occupies no machine: reported as fully
/// loaded.
pub open spec fn full_load() -> LoadRatio {
    LoadRatio { num: 1, den: 1 }
}

/// A well-formed load is a fraction in [0, 1] with a positive denominator.
pub open spec fn load_wf(l: LoadRatio) -> bool {
    1 <= l.den && l.num <= l.den
}

impl LoadRatio {
    /// The sentinel load 1/1.
    pub fn one() -> (r: LoadRatio)
        ensures
            r == full_load(),
    {
        LoadRatio { num: 1, den: 1 }
    }
}

/// One resolved (or unresolved) step of a production plan. `Resolved` carries
/// the chosen machine, the requested rate, the machine count, power draw and
/// load from the quantity calculation, and one child per input that was not
/// skipped for cycle avoidance. `Unresolved` records an item no recipe
/// produces.
#[derive(Debug)]
pub enum ProductionNode {
    Resolved {
        item_id: String,
        machine_id: String,
        amount: u32,
        machine_count: u32,
        power_usage: u32,
        load: LoadRatio,
        inputs: Vec<ProductionNode>,
        is_source: bool,
    },
    Unresolved { item_id: String, amount: u32 },
}

/// Mathematical reading of a production node.
#[verifier::ext_equal]
pub enum NodeView {
    Resolved {
        item_id: Seq<char>,
        machine_id: Seq<char>,
        amount: u32,
        machine_count: u32,
        power_usage: u32,
        load: LoadRatio,
        inputs: Seq<NodeView>,
        is_source: bool,
    },
    Unresolved { item_id: Seq<char>, amount: u32 },
}

pub open spec fn node_view(n: ProductionNode) -> NodeView
    decreases n,
{
    match n {
        ProductionNode::Resolved {
            item_id,
            machine_id,
            amount,
            machine_count,
            power_usage,
            load,
            inputs,
            is_source,
        } => NodeView::Resolved {
            item_id: item_id@,
            machine_id: machine_id@,
            amount,
            machine_count,
            power_usage,
            load,
            inputs: Seq::new(
                inputs@.len(),
                |k: int|
                    if 0 <= k < inputs@.len() {
                        proof {
                            assert(decreases_to!(n => inputs));
                            assert(decreases_to!(inputs => inputs@));
                            assert(decreases_to!(inputs@ => inputs@[k]));
                        }
                        node_view(inputs@[k])
                    } else {
                        NodeView::Unresolved { item_id: Seq::empty(), amount: 0 }
                    },
            ),
            is_source,
        },
        ProductionNode::Unresolved { item_id, amount } => NodeView::Unresolved {
            item_id: item_id@,
            amount,
        },
    }
}

impl View for ProductionNode {
    type V = NodeView;

    open spec fn view(&self) -> NodeView {
        node_view(*self)
    }
}

/// The views of a list of nodes, in order.
pub open spec fn nodes_view(s: Seq<ProductionNode>) -> Seq<NodeView> {
    Seq::new(s.len(), |k: int| node_view(s[k]))
}

/// Every load in the tree is a well-formed fraction.
pub open spec fn node_wf(n: NodeView) -> bool
    decreases n,
{
    match n {
        NodeView::Resolved { load, inputs, .. } => load_wf(load) && nodes_wf(inputs),
        NodeView::Unresolved { .. } => true,
    }
}

pub open spec fn nodes_wf(s: Seq<NodeView>) -> bool
    decreases s,
{
    if s.len() == 0 {
        true
    } else {
        nodes_wf(s.drop_last()) && node_wf(s.last())
    }
}

/// Well-formedness of a child list gives well-formedness of each child.
pub proof fn lemma_nodes_wf_index(s: Seq<NodeView>, i: int)
    requires
        nodes_wf(s),
        0 <= i < s.len(),
    ensures
        node_wf(s[i]),
    decreases s.len(),
{
    if i < s.len() - 1 {
        lemma_nodes_wf_index(s.drop_last(), i);
    }
}

/// Summed `power_usage` over every resolved node of the tree.
pub open spec fn spec_total_power(n: NodeView) -> int
    decreases n,
{
    match n {
        NodeView::Resolved { power_usage, inputs, .. } => power_usage + sum_total_power(inputs),
        NodeView::Unresolved { .. } => 0,
    }
}

pub open spec fn sum_total_power(s: Seq<NodeView>) -> int
    decreases s,
{
    if s.len() == 0 {
        0
    } else {
        sum_total_power(s.drop_last()) + spec_total_power(s.last())
    }
}

/// Summed power with raw extraction left out: a node flagged as a source
/// contributes nothing wherever it stands in the tree, and its subtree
/// (normally empty, since sources are leaves) is excluded with it.
pub open spec fn spec_total_power_exclude_source(n: NodeView) -> int
    decreases n,
{
    match n {
        NodeView::Resolved { power_usage, inputs, is_source, .. } => if is_source {
            0
        } else {
            power_usage + sum_total_power_exclude_source(inputs)
        },
        NodeView::Unresolved { .. } => 0,
    }
}

pub open spec fn sum_total_power_exclude_source(s: Seq<NodeView>) -> int
    decreases s,
{
    if s.len() == 0 {
        0
    } else {
        sum_total_power_exclude_source(s.drop_last()) + spec_total_power_exclude_source(s.last())
    }
}

pub proof fn lemma_total_power_nonneg(n: NodeView)
    ensures
        spec_total_power(n) >= 0,
    decreases n,
{
    match n {
        NodeView::Resolved { inputs, .. } => {
            lemma_sum_total_power_nonneg(inputs);
        },
        NodeView::Unresolved { .. } => {},
    }
}

pub proof fn lemma_sum_total_power_nonneg(s: Seq<NodeView>)
    ensures
        sum_total_power(s) >= 0,
    decreases s,
{
    if s.len() > 0 {
        lemma_sum_total_power_nonneg(s.drop_last());
        lemma_total_power_nonneg(s.last());
    }
}

/// A prefix of the children never sums to more than the whole list.
pub proof fn lemma_sum_total_power_prefix(s: Seq<NodeView>, i: int)
    requires
        0 <= i <= s.len(),
    ensures
        sum_total_power(s.take(i)) <= sum_total_power(s),
    decreases s.len(),
{
    if i == s.len() {
        assert(s.take(i) =~= s);
    } else {
        assert(s.take(i) =~= s.drop_last().take(i));
        lemma_sum_total_power_prefix(s.drop_last(), i);
        lemma_total_power_nonneg(s.last());
    }
}

pub proof fn lemma_total_power_exclude_source_nonneg(n: NodeView)
    ensures
        spec_total_power_exclude_source(n) >= 0,
    decreases n,
{
    match n {
        NodeView::Resolved { inputs, is_source, .. } => {
            if !is_source {
                lemma_sum_total_power_exclude_source_nonneg(inputs);
            }
        },
        NodeView::Unresolved { .. } => {},
    }
}

pub proof fn lemma_sum_total_power_exclude_source_nonneg(s: Seq<NodeView>)
    ensures
        sum_total_power_exclude_source(s) >= 0,
    decreases s,
{
    if s.len() > 0 {
        lemma_sum_total_power_exclude_source_nonneg(s.drop_last());
        lemma_total_power_exclude_source_nonneg(s.last());
    }
}

/// A prefix of the children never sums to more than the whole list.
pub proof fn lemma_sum_total_power_exclude_source_prefix(s: Seq<NodeView>, i: int)
    requires
        0 <= i <= s.len(),
    ensures
        sum_total_power_exclude_source(s.take(i)) <= sum_total_power_exclude_source(s),
    decreases s.len(),
{
    if i == s.len() {
        assert(s.take(i) =~= s);
    } else {
        assert(s.take(i) =~= s.drop_last().take(i));
        lemma_sum_total_power_exclude_source_prefix(s.drop_last(), i);
        lemma_total_power_exclude_source_nonneg(s.last());
    }
}

/// A load at the fixed-point scale: the integer part of `num / den * UTIL_ONE`.
pub open spec fn load_q(l: LoadRatio) -> int
    recommends
        load_wf(l),
{
    (l.num * UTIL_ONE) / (l.den as int)
}

/// The subtree's efficiency at the fixed-point scale: the node's load times
/// the product of the children's efficiencies, truncating after each
/// multiplication; an unresolved node contributes nothing.
pub open spec fn util_q(n: NodeView) -> int
    decreases n,
{
    match n {
        NodeView::Resolved { load, inputs, .. } => (load_q(load) * prod_util_q(inputs)) / (
        UTIL_ONE as int),
        NodeView::Unresolved { .. } => 0,
    }
}

pub open spec fn prod_util_q(s: Seq<NodeView>) -> int
    decreases s,
{
    if s.len() == 0 {
        UTIL_ONE as int
    } else {
        (prod_util_q(s.drop_last()) * util_q(s.last())) / (UTIL_ONE as int)
    }
}

/// The efficiency as a percentage, rounded to the nearest whole number and
/// clamped to 0..=100.
pub open spec fn spec_utilization(n: NodeView) -> int {
    let pct = (util_q(n) * 100 + UTIL_HALF) / (UTIL_ONE as int);
    if pct < 0 {
        0
    } else if pct > 100 {
        100
    } else {
        pct
    }
}

pub proof fn lemma_load_q_bounds(l: LoadRatio)
    requires
        load_wf(l),
    ensures
        0 <= load_q(l) <= UTIL_ONE,
{
    assert(0 <= (l.num * UTIL_ONE) / (l.den as int) <= UTIL_ONE) by (nonlinear_arith)
        requires
            1 <= l.den,
            l.num <= l.den,
            UTIL_ONE == 0x1_0000_0000u64,
    ;
}

/// A well-formed tree's efficiency stays within one unit of load.
pub proof fn lemma_util_q_bounds(n: NodeView)
    requires
        node_wf(n),
    ensures
        0 <= util_q(n) <= UTIL_ONE,
    decreases n,
{
    match n {
        NodeView::Resolved { load, inputs, .. } => {
            lemma_load_q_bounds(load);
            lemma_prod_util_q_bounds(inputs);
            assert(0 <= (load_q(load) * prod_util_q(inputs)) / (UTIL_ONE as int)
                <= UTIL_ONE) by (nonlinear_arith)
                requires
                    0 <= load_q(load) <= UTIL_ONE,
                    0 <= prod_util_q(inputs) <= UTIL_ONE,
                    UTIL_ONE == 0x1_0000_0000u64,
            ;
        },
        NodeView::Unresolved { .. } => {},
    }
}

pub proof fn lemma_prod_util_q_bounds(s: Seq<NodeView>)
    requires
        nodes_wf(s),
    ensures
        0 <= prod_util_q(s) <= UTIL_ONE,
    decreases s,
{
    if s.len() > 0 {
        lemma_prod_util_q_bounds(s.drop_last());
        lemma_util_q_bounds(s.last());
        assert(0 <= (prod_util_q(s.drop_last()) * util_q(s.last())) / (UTIL_ONE as int)
            <= UTIL_ONE) by (nonlinear_arith)
            requires
                0 <= prod_util_q(s.drop_last()) <= UTIL_ONE,
                0 <= util_q(s.last()) <= UTIL_ONE,
                UTIL_ONE == 0x1_0000_0000u64,
        ;
    }
}

/// Which totals a traversal of the tree collects.
#[derive(Debug, Clone, Copy)]
pub enum TotalsKind {
    SourceMaterials,
    Machines,
    MachinesExcludeSource,
}

/// The entry one node contributes to the totals. Leaf resolved nodes and
/// unresolved nodes contribute item and amount to the source-material totals;
/// resolved nodes with a named machine contribute machine and count to the
/// machine totals, leaving out source-flagged nodes when asked.
pub open spec fn spec_totals_entry(kind: TotalsKind, n: NodeView) -> Option<(Seq<char>, u32)> {
    match kind {
        TotalsKind::SourceMaterials => match n {
            NodeView::Resolved { item_id, amount, inputs, .. } => if inputs.len() == 0 {
                Some((item_id, amount))
            } else {
                None
            },
            NodeView::Unresolved { item_id, amount } => Some((item_id, amount)),
        },
        TotalsKind::Machines => match n {
            NodeView::Resolved { machine_id, machine_count, .. } => if machine_id.len() > 0 {
                Some((machine_id, machine_count))
            } else {
                None
            },
            NodeView::Unresolved { .. } => None,
        },
        TotalsKind::MachinesExcludeSource => match n {
            NodeView::Resolved { machine_id, machine_count, is_source, .. } => if machine_id.len()
                > 0 && !is_source {
                Some((machine_id, machine_count))
            } else {
                None
            },
            NodeView::Unresolved { .. } => None,
        },
    }
}

/// Add `v` under `key`, summing with what the totals already hold there.
pub open spec fn spec_add_entry(m: Map<Seq<char>, int>, key: Seq<char>, v: int) -> Map<
    Seq<char>,
    int,
> {
    if m.dom().contains(key) {
        m.insert(key, m[key] + v)
    } else {
        m.insert(key, v)
    }
}

/// The totals of the whole subtree, folded depth-first over an accumulator:
/// the node's own entry first, then each child in order.
pub open spec fn spec_collect_totals(kind: TotalsKind, n: NodeView, m: Map<Seq<char>, int>) -> Map<
    Seq<char>,
    int,
>
    decreases n, 1int,
{
    let m1 = match spec_totals_entry(kind, n) {
        Some(p) => spec_add_entry(m, p.0, p.1 as int),
        None => m,
    };
    match n {
        NodeView::Resolved { inputs, .. } => spec_collect_totals_seq(kind, inputs, m1),
        NodeView::Unresolved { .. } => m1,
    }
}

pub open spec fn spec_collect_totals_seq(
    kind: TotalsKind,
    s: Seq<NodeView>,
    m: Map<Seq<char>, int>,
) -> Map<Seq<char>, int>
    decreases s, 0int,
{
    if s.len() == 0 {
        m
    } else {
        spec_collect_totals_seq(kind, s.drop_first(), spec_collect_totals(kind, s[0], m))
    }
}

/// What raw or unmet inputs the plan ultimately needs: summed amounts at leaf
/// resolved nodes and unresolved nodes.
pub open spec fn spec_total_source_materials(n: NodeView) -> Map<Seq<char>, int> {
    spec_collect_totals(TotalsKind::SourceMaterials, n, Map::empty())
}

/// Summed machine counts per machine id over the tree.
pub open spec fn spec_total_machines(n: NodeView) -> Map<Seq<char>, int> {
    spec_collect_totals(TotalsKind::Machines, n, Map::empty())
}

/// Summed machine counts per machine id, leaving out source-flagged nodes.
pub open spec fn spec_total_machines_exclude_source(n: NodeView) -> Map<Seq<char>, int> {
    spec_collect_totals(TotalsKind::MachinesExcludeSource, n, Map::empty())
}

/// Pointwise order on totals: `m2` records at least what `m1` records.
pub open spec fn map_le(m1: Map<Seq<char>, int>, m2: Map<Seq<char>, int>) -> bool {
    &&& m1.dom().subset_of(m2.dom())
    &&& forall|k: Seq<char>| #[trigger] m1.dom().contains(k) ==> m1[k] <= m2[k]
}

pub open spec fn map_nonneg(m: Map<Seq<char>, int>) -> bool {
    forall|k: Seq<char>| #[trigger] m.dom().contains(k) ==> m[k] >= 0
}

/// Every total fits a machine word. The aggregation functions ask this of
/// their final result; the partial sums along the way then fit as well.
pub open spec fn map_bounded(m: Map<Seq<char>, int>) -> bool {
    forall|k: Seq<char>| #[trigger] m.dom().contains(k) ==> m[k] <= u32::MAX
}

/// Collecting only adds: the accumulator never loses a key and no total
/// shrinks.
pub proof fn lemma_collect_totals_grows(kind: TotalsKind, n: NodeView, m: Map<Seq<char>, int>)
    requires
        map_nonneg(m),
    ensures
        map_le(m, spec_collect_totals(kind, n, m)),
        map_nonneg(spec_collect_totals(kind, n, m)),
    decreases n, 1int,
{
    let m1 = match spec_totals_entry(kind, n) {
        Some(p) => spec_add_entry(m, p.0, p.1 as int),
        None => m,
    };
    assert(map_le(m, m1) && map_nonneg(m1));
    match n {
        NodeView::Resolved { inputs, .. } => {
            lemma_collect_totals_seq_grows(kind, inputs, m1);
            lemma_map_le_trans(m, m1, spec_collect_totals_seq(kind, inputs, m1));
        },
        NodeView::Unresolved { .. } => {},
    }
}

pub proof fn lemma_collect_totals_seq_grows(
    kind: TotalsKind,
    s: Seq<NodeView>,
    m: Map<Seq<char>, int>,
)
    requires
        map_nonneg(m),
    ensures
        map_le(m, spec_collect_totals_seq(kind, s, m)),
        map_nonneg(spec_collect_totals_seq(kind, s, m)),
    decreases s, 0int,
{
    if s.len() == 0 {
        assert(map_le(m, m));
    } else {
        lemma_collect_totals_grows(kind, s[0], m);
        let m1 = spec_collect_totals(kind, s[0], m);
        lemma_collect_totals_seq_grows(kind, s.drop_first(), m1);
        lemma_map_le_trans(m, m1, spec_collect_totals_seq(kind, s.drop_first(), m1));
    }
}

pub proof fn lemma_map_le_trans(
    m1: Map<Seq<char>, int>,
    m2: Map<Seq<char>, int>,
    m3: Map<Seq<char>, int>,
)
    requires
        map_le(m1, m2),
        map_le(m2, m3),
    ensures
        map_le(m1, m3),
{
    assert forall|k: Seq<char>| #[trigger] m1.dom().contains(k) implies m1[k] <= m3[k] by {
        assert(m2.dom().contains(k));
    }
}

/// Add `v` to the total recorded under `key`.
fn add_total(t: &mut Vec<(String, u32)>, key: &str, v: u32)
    requires
        crate::table::kv_keys_unique(counts_view(old(t)@)),
        spec_add_entry(totals_map(old(t)@), key@, v as int)[key@] <= u32::MAX,
    ensures
        totals_map(final(t)@) == spec_add_entry(totals_map(old(t)@), key@, v as int),
        crate::table::kv_keys_unique(counts_view(final(t)@)),
{
    let ghost m0 = totals_map(old(t)@);
    let cur: Option<u32> = count_get(t, key);
    let newval: u32 = match cur {
        Some(c) => {
            proof {
                assert(m0.dom().contains(key@));
                assert(m0[key@] == c);
            }
            c + v
        },
        None => v,
    };
    count_put(t, key, newval);
    proof {
        assert forall|k: Seq<char>|
            #![all_triggers]
            true implies {
            &&& totals_map(t@).dom().contains(k) == spec_add_entry(m0, key@, v as int).dom().contains(
                k,
            )
            &&& (totals_map(t@).dom().contains(k) ==> totals_map(t@)[k] == spec_add_entry(
                m0,
                key@,
                v as int,
            )[k])
        } by {
            crate::table::lemma_kv_put_find(counts_view(old(t)@), key@, newval, k);
        }
        assert(totals_map(t@) =~= spec_add_entry(m0, key@, v as int));
    }
}

impl ProductionNode {
    /// A leaf is a resolved node with no children: terminal raw-material
    /// production.
    pub fn is_leaf(&self) -> (r: bool)
        ensures
            r == (self@ matches NodeView::Resolved { inputs, .. } && inputs.len() == 0),
    {
        match self {
            ProductionNode::Resolved { inputs, .. } => inputs.len() == 0,
            ProductionNode::Unresolved { .. } => false,
        }
    }

    /// Summed power draw over the whole tree.
    pub fn total_power(&self) -> (r: u32)
        requires
            spec_total_power(self@) <= u32::MAX,
        ensures
            r == spec_total_power(self@),
        decreases *self,
    {
        match self {
            ProductionNode::Resolved { power_usage, inputs, .. } => {
                let ghost children = self@->Resolved_inputs;
                let mut acc: u32 = *power_usage;
                let n: usize = inputs.len();
                let mut i: usize = 0;
                proof {
                    assert(children.take(0) =~= Seq::<NodeView>::empty());
                    assert(children.len() == inputs@.len());
                    assert(forall|k: int|
                        0 <= k < n ==> children[k] == node_view(#[trigger] inputs@[k]));
                }
                while i < n
                    invariant
                        i <= n,
                        n == inputs@.len(),
                        children.len() == n,
                        children == self@->Resolved_inputs,
                        (*self) matches ProductionNode::Resolved { inputs: inps, .. }
                            && inps == *inputs,
                        spec_total_power(self@) <= u32::MAX,
                        self@ matches NodeView::Resolved { inputs: cs, power_usage: pu, .. }
                            && cs == children && pu == *power_usage,
                        forall|k: int| 0 <= k < n ==> children[k] == node_view(#[trigger] inputs@[k]),
                        acc == *power_usage + sum_total_power(children.take(i as int)),
                    decreases n - i,
                {
                    proof {
                        assert(children.take(i as int + 1).drop_last() =~= children.take(i as int));
                        assert(children.take(i as int + 1).last() == children[i as int]);
                        lemma_sum_total_power_prefix(children, i as int + 1);
                        lemma_total_power_nonneg(children[i as int]);
                        lemma_sum_total_power_nonneg(children.take(i as int));
                    }
                    proof {
                        assert(decreases_to!(*self => (*self)->Resolved_inputs));
                        assert((*self)->Resolved_inputs == *inputs);
                        assert(decreases_to!(*inputs => inputs@));
                        assert(decreases_to!(inputs@ => inputs@[i as int]));
                    }
                    let p: u32 = inputs[i].total_power();
                    acc = acc + p;
                    i = i + 1;
                }
                proof {
                    assert(children.take(n as int) =~= children);
                }
                acc
            },
            ProductionNode::Unresolved { .. } => 0,
        }
    }

    /// The subtree's multiplicative efficiency at the fixed-point scale:
    /// this node's load times the product of the children's efficiencies,
    /// truncating after each multiplication.
    fn total_utilization(&self) -> (r: u64)
        requires
            node_wf(self@),
        ensures
            r == util_q(self@),
        decreases *self,
    {
        match self {
            ProductionNode::Resolved { load, inputs, .. } => {
                let ghost children = self@->Resolved_inputs;
                proof {
                    assert(load_wf(*load) && nodes_wf(children));
                    lemma_load_q_bounds(*load);
                }
                let lq: u64 = (((load.num as u128) * (UTIL_ONE as u128)) / load.den) as u64;
                let mut prod: u64 = UTIL_ONE;
                let n: usize = inputs.len();
                let mut i: usize = 0;
                proof {
                    assert(children.take(0) =~= Seq::<NodeView>::empty());
                }
                while i < n
                    invariant
                        i <= n,
                        n == inputs@.len(),
                        children.len() == n,
                        children == self@->Resolved_inputs,
                        (*self) matches ProductionNode::Resolved { inputs: inps, .. }
                            && inps == *inputs,
                        nodes_wf(children),
                        forall|k: int| 0 <= k < n ==> children[k] == node_view(#[trigger] inputs@[k]),
                        prod == prod_util_q(children.take(i as int)),
                        0 <= prod <= UTIL_ONE,
                    decreases n - i,
                {
                    proof {
                        assert(decreases_to!(*self => (*self)->Resolved_inputs));
                        assert((*self)->Resolved_inputs == *inputs);
                        assert(decreases_to!(*inputs => inputs@));
                        assert(decreases_to!(inputs@ => inputs@[i as int]));
                        lemma_nodes_wf_index(children, i as int);
                    }
                    let u: u64 = inputs[i].total_utilization();
                    proof {
                        lemma_util_q_bounds(children[i as int]);
                        assert(children.take(i as int + 1).drop_last() =~= children.take(i as int));
                        assert(children.take(i as int + 1).last() == children[i as int]);
                        assert(0 <= (prod * u) / (UTIL_ONE as int) <= UTIL_ONE) by (nonlinear_arith)
                            requires
                                0 <= prod <= UTIL_ONE,
                                0 <= u <= UTIL_ONE,
                                UTIL_ONE == 0x1_0000_0000u64,
                        ;
                    }
                    prod = (((prod as u128) * (u as u128)) / (UTIL_ONE as u128)) as u64;
                    i = i + 1;
                }
                proof {
                    assert(children.take(n as int) =~= children);
                    assert(0 <= (load_q(self@->Resolved_load) * prod) / (UTIL_ONE as int)
                        <= UTIL_ONE) by (nonlinear_arith)
                        requires
                            0 <= load_q(self@->Resolved_load) <= UTIL_ONE,
                            0 <= prod <= UTIL_ONE,
                            UTIL_ONE == 0x1_0000_0000u64,
                    ;
                }
                (((lq as u128) * (prod as u128)) / (UTIL_ONE as u128)) as u64
            },
            ProductionNode::Unresolved { .. } => 0,
        }
    }

    /// The plan's root-to-leaf multiplicative efficiency, as a percentage
    /// rounded to the nearest whole number and clamped to 0..=100.
    pub fn utilization(&self) -> (r: u32)
        requires
            node_wf(self@),
        ensures
            r == spec_utilization(self@),
            r <= 100,
    {
        let u: u64 = self.total_utilization();
        proof {
            lemma_util_q_bounds(self@);
        }
        let pct: u128 = ((u as u128) * 100 + (UTIL_HALF as u128)) / (UTIL_ONE as u128);
        if pct > 100 {
            100
        } else {
            pct as u32
        }
    }

    /// Walk the subtree depth-first, folding each node's entry into `totals`.
    fn collect_totals_recursive(&self, kind: TotalsKind, totals: &mut Vec<(String, u32)>)
        requires
            crate::table::kv_keys_unique(counts_view(old(totals)@)),
            map_bounded(spec_collect_totals(kind, self@, totals_map(old(totals)@))),
        ensures
            totals_map(final(totals)@) == spec_collect_totals(
                kind,
                self@,
                totals_map(old(totals)@),
            ),
            crate::table::kv_keys_unique(counts_view(final(totals)@)),
        decreases *self,
    {
        let ghost m0 = totals_map(old(totals)@);
        let ghost target = spec_collect_totals(kind, self@, m0);
        proof {
            crate::table::lemma_totals_map_nonneg(old(totals)@);
        }
        match self {
            ProductionNode::Unresolved { item_id, amount } => {
                match kind {
                    TotalsKind::SourceMaterials => {
                        proof {
                            assert(target == spec_add_entry(m0, item_id@, *amount as int));
                            assert(target.dom().contains(item_id@));
                        }
                        add_total(totals, item_id.as_str(), *amount);
                    },
                    TotalsKind::Machines => {},
                    TotalsKind::MachinesExcludeSource => {},
                }
            },
            ProductionNode::Resolved {
                item_id,
                machine_id,
                amount,
                machine_count,
                inputs,
                is_source,
                ..
            } => {
                let ghost children = self@->Resolved_inputs;
                let ghost entry = spec_totals_entry(kind, self@);
                let ghost m1 = if entry is Some {
                    spec_add_entry(m0, entry->Some_0.0, entry->Some_0.1 as int)
                } else {
                    m0
                };
                proof {
                    assert(target == spec_collect_totals_seq(kind, children, m1));
                    if entry is Some {
                        assert(map_le(m1, m1));
                        lemma_collect_totals_seq_grows(kind, children, m1);
                        assert(m1.dom().contains(entry->Some_0.0));
                        assert(m1[entry->Some_0.0] <= target[entry->Some_0.0]);
                    }
                }
                match kind {
                    TotalsKind::SourceMaterials => {
                        if inputs.len() == 0 {
                            add_total(totals, item_id.as_str(), *amount);
                        }
                    },
                    TotalsKind::Machines => {
                        if !machine_id.as_str().is_empty() {
                            add_total(totals, machine_id.as_str(), *machine_count);
                        }
                    },
                    TotalsKind::MachinesExcludeSource => {
                        if !machine_id.as_str().is_empty() && !*is_source {
                            add_total(totals, machine_id.as_str(), *machine_count);
                        }
                    },
                }
                proof {
                    assert(totals_map(totals@) == m1);
                    assert(children.skip(0) =~= children);
                }
                let n: usize = inputs.len();
                let mut i: usize = 0;
                while i < n
                    invariant
                        i <= n,
                        n == inputs@.len(),
                        children.len() == n,
                        children == self@->Resolved_inputs,
                        (*self) matches ProductionNode::Resolved { inputs: inps, .. }
                            && inps == *inputs,
                        forall|k: int| 0 <= k < n ==> children[k] == node_view(#[trigger] inputs@[k]),
                        crate::table::kv_keys_unique(counts_view(totals@)),
                        map_bounded(target),
                        spec_collect_totals_seq(kind, children.skip(i as int), totals_map(totals@))
                            == target,
                    decreases n - i,
                {
                    let ghost cur = totals_map(totals@);
                    proof {
                        assert(decreases_to!(*self => (*self)->Resolved_inputs));
                        assert((*self)->Resolved_inputs == *inputs);
                        assert(decreases_to!(*inputs => inputs@));
                        assert(decreases_to!(inputs@ => inputs@[i as int]));
                        assert(children.skip(i as int).drop_first() =~= children.skip(
                            i as int + 1,
                        ));
                        assert(children.skip(i as int)[0] == children[i as int]);
                        crate::table::lemma_totals_map_nonneg(totals@);
                        lemma_collect_totals_grows(kind, children[i as int], cur);
                        let after = spec_collect_totals(kind, children[i as int], cur);
                        lemma_collect_totals_seq_grows(kind, children.skip(i as int + 1), after);
                        assert(spec_collect_totals_seq(kind, children.skip(i as int + 1), after)
                            == target);
                        assert forall|k: Seq<char>| #[trigger] after.dom().contains(k) implies
                            after[k] <= u32::MAX by {
                            assert(target.dom().contains(k));
                            assert(after[k] <= target[k]);
                        }
                        assert(map_bounded(after));
                    }
                    inputs[i].collect_totals_recursive(kind, totals);
                    i = i + 1;
                }
                proof {
                    assert(children.skip(n as int) =~= Seq::<NodeView>::empty());
                }
            },
        }
    }

    /// What raw or unmet inputs the plan ultimately needs: item id to summed
    /// amount, collected at leaf resolved nodes and at unresolved nodes.
    pub fn total_source_materials(&self) -> (r: Vec<(String, u32)>)
        requires
            map_bounded(spec_total_source_materials(self@)),
        ensures
            totals_map(r@) == spec_total_source_materials(self@),
            crate::table::kv_keys_unique(counts_view(r@)),
    {
        let mut totals: Vec<(String, u32)> = Vec::new();
        proof {
            assert(counts_view(totals@) =~= Seq::<(Seq<char>, u32)>::empty());
            assert(totals_map(totals@) =~= Map::<Seq<char>, int>::empty());
        }
        self.collect_totals_recursive(TotalsKind::SourceMaterials, &mut totals);
        totals
    }

    /// Machine id to summed machine count over every resolved node with a
    /// named machine.
    pub fn total_machines(&self) -> (r: Vec<(String, u32)>)
        requires
            map_bounded(spec_total_machines(self@)),
        ensures
            totals_map(r@) == spec_total_machines(self@),
            crate::table::kv_keys_unique(counts_view(r@)),
    {
        let mut totals: Vec<(String, u32)> = Vec::new();
        proof {
            assert(counts_view(totals@) =~= Seq::<(Seq<char>, u32)>::empty());
            assert(totals_map(totals@) =~= Map::<Seq<char>, int>::empty());
        }
        self.collect_totals_recursive(TotalsKind::Machines, &mut totals);
        totals
    }

    /// Machine totals, leaving out nodes flagged as sources.
    pub fn total_machines_exclude_source(&self) -> (r: Vec<(String, u32)>)
        requires
            map_bounded(spec_total_machines_exclude_source(self@)),
        ensures
            totals_map(r@) == spec_total_machines_exclude_source(self@),
            crate::table::kv_keys_unique(counts_view(r@)),
    {
        let mut totals: Vec<(String, u32)> = Vec::new();
        proof {
            assert(counts_view(totals@) =~= Seq::<(Seq<char>, u32)>::empty());
            assert(totals_map(totals@) =~= Map::<Seq<char>, int>::empty());
        }
        self.collect_totals_recursive(TotalsKind::MachinesExcludeSource, &mut totals);
        totals
    }

    /// Summed power draw with raw extraction left out: a node flagged as a
    /// source contributes nothing wherever it stands, and its subtree is
    /// excluded with it.
    pub fn total_power_exclude_source(&self) -> (r: u32)
        requires
            spec_total_power_exclude_source(self@) <= u32::MAX,
        ensures
            r == spec_total_power_exclude_source(self@),
        decreases *self,
    {
        match self {
            ProductionNode::Resolved { power_usage, inputs, is_source, .. } => {
                if *is_source {
                    return 0;
                }
                let ghost children = self@->Resolved_inputs;
                let mut acc: u32 = *power_usage;
                let n: usize = inputs.len();
                let mut i: usize = 0;
                proof {
                    assert(children.take(0) =~= Seq::<NodeView>::empty());
                    assert(children.len() == inputs@.len());
                    assert(forall|k: int|
                        0 <= k < n ==> children[k] == node_view(#[trigger] inputs@[k]));
                }
                while i < n
                    invariant
                        i <= n,
                        n == inputs@.len(),
                        children.len() == n,
                        children == self@->Resolved_inputs,
                        (*self) matches ProductionNode::Resolved { inputs: inps, .. }
                            && inps == *inputs,
                        spec_total_power_exclude_source(self@) <= u32::MAX,
                        self@ matches NodeView::Resolved { inputs: cs, power_usage: pu, is_source: src, .. }
                            && cs == children && pu == *power_usage && !src,
                        forall|k: int| 0 <= k < n ==> children[k] == node_view(#[trigger] inputs@[k]),
                        acc == *power_usage + sum_total_power_exclude_source(
                            children.take(i as int),
                        ),
                    decreases n - i,
                {
                    proof {
                        assert(children.take(i as int + 1).drop_last() =~= children.take(i as int));
                        assert(children.take(i as int + 1).last() == children[i as int]);
                        lemma_sum_total_power_exclude_source_prefix(children, i as int + 1);
                        lemma_total_power_exclude_source_nonneg(children[i as int]);
                        lemma_sum_total_power_exclude_source_nonneg(children.take(i as int));
                    }
                    proof {
                        assert(decreases_to!(*self => (*self)->Resolved_inputs));
                        assert((*self)->Resolved_inputs == *inputs);
                        assert(decreases_to!(*inputs => inputs@));
                        assert(decreases_to!(inputs@ => inputs@[i as int]));
                    }
                    let p: u32 = inputs[i].total_power_exclude_source();
                    acc = acc + p;
                    i = i + 1;
                }
                proof {
                    assert(children.take(n as int) =~= children);
                }
                acc
            },
            ProductionNode::Unresolved { .. } => 0,
        }
    }
}

} // verus!
