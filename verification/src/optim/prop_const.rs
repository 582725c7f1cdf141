//! Constant propagation: wherever a node that the outputs of the graph
//! depend on takes an input whose value is already known, the input is
//! rewired to a new node that produces that value as a constant.

use vstd::prelude::*;
use vstd::string::StringExecFns;
use crate::analyser::types::{GenericFact, TensorFact, TensorFactValue};
use crate::errors::{TractError, TractResult};
use crate::model::{
    lemma_same_edges,
    lemma_with_inputs_wf,
    lemma_with_node_ranked,
    InletId,
    Model,
    ModelValue,
    NodeValue,
    OutletId,
};
use crate::ops::OperatorValue;
use crate::optim::OptimizerPass;
use crate::tensor::TensorValue;

verus! {

/// The set of small integers of the crate `bit_set`.
#[verifier::external_type_specification]
#[verifier::external_body]
#[verifier::reject_recursive_types(B)]
pub struct ExBitSet<B>(bit_set::BitSet<B>);

/// The integers that a bit set holds.
pub uninterp spec fn members(s: bit_set::BitSet<u32>) -> Set<usize>;

/// `BitSet::with_capacity`: a set that holds nothing. The capacity only
/// says how much room is set aside.
#[verifier::external_body]
fn bitset_with_capacity(nbits: usize) -> (r: bit_set::BitSet<u32>)
    ensures
        members(r) == Set::<usize>::empty(),
{
    bit_set::BitSet::with_capacity(nbits)
}

/// `BitSet::contains`: whether the set holds `value`.
#[verifier::external_body]
fn bitset_contains(s: &bit_set::BitSet<u32>, value: usize) -> (r: bool)
    ensures
        r == members(*s).contains(value),
{
    s.contains(value)
}

/// `BitSet::insert`: adds `value` to the set and tells whether it was new.
/// The set grows as needed to hold `value`, for which `value + 1` must not
/// overflow.
#[verifier::external_body]
fn bitset_insert(s: &mut bit_set::BitSet<u32>, value: usize) -> (r: bool)
    requires
        value < usize::MAX,
    ensures
        members(*final(s)) == members(*old(s)).insert(value),
        r == !members(*old(s)).contains(value),
{
    s.insert(value)
}

/// The character of the decimal digit `d`.
pub open spec fn digit(d: nat) -> char {
    if d == 0 {
        '0'
    } else if d == 1 {
        '1'
    } else if d == 2 {
        '2'
    } else if d == 3 {
        '3'
    } else if d == 4 {
        '4'
    } else if d == 5 {
        '5'
    } else if d == 6 {
        '6'
    } else if d == 7 {
        '7'
    } else if d == 8 {
        '8'
    } else {
        '9'
    }
}

/// The number `n` written in decimal.
pub open spec fn decimal(n: nat) -> Seq<char>
    decreases n,
{
    if n < 10 {
        seq![digit(n)]
    } else {
        decimal(n / 10).push(digit(n % 10))
    }
}

/// The name that a constant node gets when it is added at position `id`:
/// `Const-` followed by the position in decimal.
pub open spec fn const_name(id: usize) -> Seq<char> {
    "Const-"@ + decimal(id as nat)
}

/// The text of one decimal digit.
fn digit_str(d: usize) -> (r: &'static str)
    requires
        d < 10,
    ensures
        r@ == seq![digit(d as nat)],
{
    proof {
        reveal_strlit("0");
        reveal_strlit("1");
        reveal_strlit("2");
        reveal_strlit("3");
        reveal_strlit("4");
        reveal_strlit("5");
        reveal_strlit("6");
        reveal_strlit("7");
        reveal_strlit("8");
        reveal_strlit("9");
    }
    let r = if d == 0 {
        "0"
    } else if d == 1 {
        "1"
    } else if d == 2 {
        "2"
    } else if d == 3 {
        "3"
    } else if d == 4 {
        "4"
    } else if d == 5 {
        "5"
    } else if d == 6 {
        "6"
    } else if d == 7 {
        "7"
    } else if d == 8 {
        "8"
    } else {
        "9"
    };
    assert(r@ =~= seq![digit(d as nat)]);
    r
}

/// Appends `n` in decimal to `s`.
fn push_decimal(s: &mut String, n: usize)
    ensures
        final(s)@ == old(s)@ + decimal(n as nat),
    decreases n,
{
    if n >= 10 {
        push_decimal(s, n / 10);
    }
    s.append(digit_str(n % 10));
    assert(s@ =~= old(s)@ + decimal(n as nat));
}

/// The name of the constant node added at position `id`.
pub fn const_node_name(id: usize) -> (r: String)
    ensures
        r@ == const_name(id),
{
    let mut s = "Const-".to_owned();
    push_decimal(&mut s, id);
    s
}

/// The inlet takes a known value from a node that is not a constant: it can
/// be folded.
pub open spec fn foldable(g: ModelValue, n: int, i: int) -> bool {
    &&& g.source(n, i) matches Some(o)
    &&& !(g.nodes[o.node as int].op is Const)
    &&& g.fact(o).value is Only
}

/// No inlet of the graph can be folded.
pub open spec fn is_folded(g: ModelValue) -> bool {
    forall|n: int, i: int| #[trigger] g.has_inlet(n, i) ==> !foldable(g, n, i)
}

/// Node `b` is node `a` but for the sources of its inlets.
pub open spec fn same_but_sources(a: NodeValue, b: NodeValue) -> bool {
    &&& a.id == b.id
    &&& a.name == b.name
    &&& a.op == b.op
    &&& a.outputs == b.outputs
    &&& a.inputs.len() == b.inputs.len()
}

/// The node at position `c` is a constant added by folding: it has no
/// inlet and one outlet, whose fact is that of the constant.
pub open spec fn fresh_const(node: NodeValue, c: int) -> bool {
    &&& node.id == c
    &&& node.name == const_name(c as usize)
    &&& node.inputs.len() == 0
    &&& node.op matches OperatorValue::Const(v)
    &&& node.outputs == seq![TensorFactValue::of_tensor(v)]
}

/// In `h`, inlet `i` of node `n` was folded: in `g` it took a known value
/// from a node that is not a constant, and in `h` it takes that value from a
/// constant that `g` does not have.
pub open spec fn folded_at(g: ModelValue, h: ModelValue, n: int, i: int) -> bool {
    &&& g.source(n, i) matches Some(o)
    &&& h.source(n, i) matches Some(c)
    &&& c.slot == 0
    &&& g.nodes.len() <= c.node < h.nodes.len()
    &&& !(g.nodes[o.node as int].op is Const)
    &&& g.fact(o).value matches GenericFact::Only(v)
    &&& h.nodes[c.node as int].op == OperatorValue::Const(v)
}

/// Inlet `i` of node `n` of `h` takes its value from node `c`.
pub open spec fn reads(h: ModelValue, n: int, i: int, c: int) -> bool {
    h.has_inlet(n, i) && (h.source(n, i) matches Some(o) && o.node == c)
}

/// The node `c` of `h` is read by exactly one inlet, and that inlet was
/// folded.
pub open spec fn read_once(g: ModelValue, h: ModelValue, c: int) -> bool {
    exists|n: int, i: int|
        {
            &&& #[trigger] reads(h, n, i, c)
            &&& g.has_inlet(n, i)
            &&& folded_at(g, h, n, i)
            &&& forall|m: int, j: int| #[trigger] reads(h, m, j, c) ==> m == n && j == i
        }
}

/// `h` is `g` after constant folding: the nodes of `g` are all there with
/// their operators and facts, every inlet has the source it had or was
/// folded, the nodes that were added are the constants, one for each folded
/// inlet and read by that inlet alone, and the outputs of the graph are
/// unchanged.
pub open spec fn folds(g: ModelValue, h: ModelValue) -> bool {
    &&& h.outputs == g.outputs
    &&& g.nodes.len() <= h.nodes.len()
    &&& forall|n: int|
        0 <= n < g.nodes.len() ==> same_but_sources(g.nodes[n], #[trigger] h.nodes[n])
    &&& forall|n: int, i: int| #[trigger]
        g.has_inlet(n, i) ==> h.source(n, i) == g.source(n, i) || folded_at(g, h, n, i)
    &&& forall|c: int| g.nodes.len() <= c < h.nodes.len() ==> fresh_const(#[trigger] h.nodes[c], c)
    &&& forall|c: int| g.nodes.len() <= c < h.nodes.len() ==> #[trigger] read_once(g, h, c)
}

/// The graph `g` with inlet `i` of node `n` folded to the constant `v`: a
/// constant node is added, the inlet takes its value from it, and the fact
/// on the outlet of the new node is that of the constant.
pub open spec fn with_folded_inlet(g: ModelValue, n: int, i: int, v: TensorValue) -> ModelValue {
    let c = OutletId { node: g.nodes.len() as usize, slot: 0 };
    g.with_node(const_name(c.node), OperatorValue::Const(v)).with_inputs(
        n,
        g.nodes[n].inputs.update(i, Some(c)),
    ).with_fact(c, TensorFactValue::of_tensor(v))
}

/// The source is an outlet of a node that is not a constant.
pub open spec fn foreign(g: ModelValue, source: Option<OutletId>) -> bool {
    source matches Some(o) && !(g.nodes[o.node as int].op is Const)
}

/// How many of `inputs` are outlets of nodes that are not constants.
pub open spec fn foreign_inputs(g: ModelValue, inputs: Seq<Option<OutletId>>) -> nat
    decreases inputs.len(),
{
    if inputs.len() == 0 {
        0
    } else {
        foreign_inputs(g, inputs.drop_last()) + if foreign(g, inputs.last()) {
            1nat
        } else {
            0nat
        }
    }
}

/// How many inlets of the first `upto` nodes take their value from a node
/// that is not a constant.
pub open spec fn foreign_inlets(g: ModelValue, upto: int) -> nat
    decreases upto,
{
    if upto <= 0 {
        0
    } else {
        foreign_inlets(g, upto - 1) + foreign_inputs(g, g.nodes[upto - 1].inputs)
    }
}

/// How many inlets of the graph take their value from a node that is not a
/// constant.
pub open spec fn foreign_total(g: ModelValue) -> nat {
    foreign_inlets(g, g.nodes.len() as int)
}

proof fn lemma_foreign_inputs_same(g: ModelValue, h: ModelValue, inputs: Seq<Option<OutletId>>)
    requires
        forall|j: int| 0 <= j < inputs.len() ==> foreign(g, #[trigger] inputs[j]) == foreign(h, inputs[j]),
    ensures
        foreign_inputs(g, inputs) == foreign_inputs(h, inputs),
    decreases inputs.len(),
{
    if inputs.len() > 0 {
        let rest = inputs.drop_last();
        assert forall|j: int| 0 <= j < rest.len() implies foreign(g, #[trigger] rest[j]) == foreign(
            h,
            rest[j],
        ) by {
            assert(rest[j] == inputs[j]);
        }
        lemma_foreign_inputs_same(g, h, rest);
        assert(inputs.last() == inputs[inputs.len() - 1]);
    }
}

proof fn lemma_foreign_inputs_update(
    g: ModelValue,
    inputs: Seq<Option<OutletId>>,
    i: int,
    source: Option<OutletId>,
)
    requires
        0 <= i < inputs.len(),
        foreign(g, inputs[i]),
        !foreign(g, source),
    ensures
        foreign_inputs(g, inputs.update(i, source)) + 1 == foreign_inputs(g, inputs),
    decreases inputs.len(),
{
    let updated = inputs.update(i, source);
    if i == inputs.len() - 1 {
        assert(updated.drop_last() =~= inputs.drop_last());
    } else {
        lemma_foreign_inputs_update(g, inputs.drop_last(), i, source);
        assert(updated.drop_last() =~= inputs.drop_last().update(i, source));
    }
}

proof fn lemma_foreign_inlets_step(g: ModelValue, h: ModelValue, n0: int, upto: int)
    requires
        0 <= upto <= g.nodes.len() <= h.nodes.len(),
        0 <= n0 < g.nodes.len(),
        forall|n: int|
            0 <= n < g.nodes.len() && n != n0 ==> foreign_inputs(h, (#[trigger] h.nodes[n]).inputs)
                == foreign_inputs(g, g.nodes[n].inputs),
        foreign_inputs(h, h.nodes[n0].inputs) + 1 == foreign_inputs(g, g.nodes[n0].inputs),
    ensures
        foreign_inlets(h, upto) + (if n0 < upto {
            1nat
        } else {
            0nat
        }) == foreign_inlets(g, upto),
    decreases upto,
{
    if upto > 0 {
        lemma_foreign_inlets_step(g, h, n0, upto - 1);
    }
}

/// Folding an inlet keeps the graph consistent, lets the new constant rank
/// lowest, and leaves one inlet less that takes its value from a node that
/// is not a constant.
pub proof fn lemma_fold_inlet(g: ModelValue, n: int, i: int, v: TensorValue, rank: Seq<nat>)
    requires
        g.consistent(),
        g.nodes.len() < usize::MAX,
        g.ranked_by(rank),
        g.has_inlet(n, i),
        foreign(g, g.source(n, i)),
    ensures
        with_folded_inlet(g, n, i, v).consistent(),
        with_folded_inlet(g, n, i, v).ranked_by(rank.push(0)),
        foreign_total(with_folded_inlet(g, n, i, v)) + 1 == foreign_total(g),
{
    let c = OutletId { node: g.nodes.len() as usize, slot: 0 };
    let len = g.nodes.len() as int;
    let g1 = g.with_node(const_name(c.node), OperatorValue::Const(v));
    let inputs = g.nodes[n].inputs.update(i, Some(c));
    let g2 = g1.with_inputs(n, inputs);
    let h = g2.with_fact(c, TensorFactValue::of_tensor(v));
    assert(h == with_folded_inlet(g, n, i, v));
    let r = rank.push(0);
    lemma_with_node_ranked(g, rank, const_name(c.node), OperatorValue::Const(v));
    // g1 is well formed
    assert(g1.wf()) by {
        assert forall|m: int, j: int| #[trigger] g1.has_inlet(m, j) implies (g1.source(m, j) matches Some(
            o,
        ) ==> g1.has_outlet(o)) by {
            assert(g.has_inlet(m, j));
        }
        assert forall|k: int| 0 <= k < g1.outputs.len() implies g1.has_outlet(
            #[trigger] g1.outputs[k],
        ) by {
            assert(g.has_outlet(g.outputs[k]));
        }
    }
    assert(g1.has_outlet(c));
    assert forall|j: int| 0 <= j < inputs.len() implies ((#[trigger] inputs[j]) matches Some(o)
        ==> g1.has_outlet(o)) by {
        if j != i {
            assert(g1.has_inlet(n, j));
        }
    }
    lemma_with_inputs_wf(g1, n, inputs);
    // the rank of node n is positive, since it has a source
    assert(rank[n] > 0) by {
        let o = g.source(n, i).unwrap();
        assert(rank[o.node as int] < rank[n]);
    }
    assert(g2.ranked_by(r) && g2.all_bound()) by {
        assert forall|m: int, j: int| #[trigger] g2.has_inlet(m, j) implies (g2.source(m, j) is Some
            && (g2.source(m, j) matches Some(o) ==> r[o.node as int] < r[m])) by {
            if m == n {
                if j != i {
                    assert(g.has_inlet(n, j));
                }
            } else {
                assert(g1.has_inlet(m, j));
                if m < len {
                    assert(g.has_inlet(m, j));
                }
            }
        }
    }
    assert(h.nodes[len].outputs.len() == g2.nodes[len].outputs.len());
    lemma_same_edges(g2, h);
    assert(h.ranked_by(r));
    // counting
    assert forall|m: int| 0 <= m < len && m != n implies foreign_inputs(h, (#[trigger] h.nodes[m]).inputs)
        == foreign_inputs(g, g.nodes[m].inputs) by {
        let ins = g.nodes[m].inputs;
        assert(h.nodes[m].inputs == ins);
        assert forall|j: int| 0 <= j < ins.len() implies foreign(g, #[trigger] ins[j]) == foreign(
            h,
            ins[j],
        ) by {
            assert(g.has_inlet(m, j));
        }
        lemma_foreign_inputs_same(g, h, ins);
    }
    assert(foreign_inputs(h, h.nodes[n].inputs) + 1 == foreign_inputs(g, g.nodes[n].inputs)) by {
        let ins = g.nodes[n].inputs;
        assert(h.nodes[n].inputs == inputs);
        assert forall|j: int| 0 <= j < inputs.len() implies foreign(g1, #[trigger] inputs[j])
            == foreign(h, inputs[j]) by {
            if j != i {
                assert(g.has_inlet(n, j));
            }
        }
        lemma_foreign_inputs_same(g1, h, inputs);
        assert forall|j: int| 0 <= j < ins.len() implies foreign(g, #[trigger] ins[j]) == foreign(
            g1,
            ins[j],
        ) by {
            assert(g.has_inlet(n, j));
        }
        lemma_foreign_inputs_same(g, g1, ins);
        lemma_foreign_inputs_update(g1, ins, i, Some(c));
    }
    lemma_foreign_inlets_step(g, h, n, len);
    assert(h.nodes[len].inputs =~= Seq::empty());
    assert(foreign_inputs(h, h.nodes[len].inputs) == 0);
}

/// Folding one more inlet of a graph that was obtained by folding gives a
/// graph that was obtained by folding.
pub proof fn lemma_folds_step(g0: ModelValue, g: ModelValue, n: int, i: int, v: TensorValue)
    requires
        g0.wf(),
        g.wf(),
        g.nodes.len() < usize::MAX,
        folds(g0, g),
        g.has_inlet(n, i),
        foreign(g, g.source(n, i)),
        g.fact(g.source(n, i).unwrap()).value == GenericFact::Only(v),
    ensures
        folds(g0, with_folded_inlet(g, n, i, v)),
        n < g0.nodes.len(),
        foldable(g0, n, i),
{
    let h = with_folded_inlet(g, n, i, v);
    let len = g.nodes.len() as int;
    let o = g.source(n, i).unwrap();
    // a node with an inlet is a node of g0, and so is a node that is no constant
    if n >= g0.nodes.len() {
        assert(fresh_const(g.nodes[n], n));
    }
    assert(g.has_outlet(o));
    if o.node >= g0.nodes.len() {
        assert(fresh_const(g.nodes[o.node as int], o.node as int));
    }
    assert(same_but_sources(g0.nodes[n], g.nodes[n]));
    assert(same_but_sources(g0.nodes[o.node as int], g.nodes[o.node as int]));
    assert(g0.has_inlet(n, i));
    assert(g0.source(n, i) == g.source(n, i)) by {
        if folded_at(g0, g, n, i) {
            let c = g.source(n, i).unwrap();
            assert(fresh_const(g.nodes[c.node as int], c.node as int));
        }
    }
    assert forall|m: int| 0 <= m < g0.nodes.len() implies same_but_sources(
        g0.nodes[m],
        #[trigger] h.nodes[m],
    ) by {
        assert(same_but_sources(g0.nodes[m], g.nodes[m]));
    }
    assert forall|m: int, j: int| #[trigger] g0.has_inlet(m, j) implies h.source(m, j) == g0.source(
        m,
        j,
    ) || folded_at(g0, h, m, j) by {
        assert(same_but_sources(g0.nodes[m], g.nodes[m]));
        if m == n && j == i {
            assert(folded_at(g0, h, m, j));
        } else {
            assert(h.source(m, j) == g.source(m, j));
            if folded_at(g0, g, m, j) {
                let c = g.source(m, j).unwrap();
                assert(h.nodes[c.node as int].op == g.nodes[c.node as int].op);
                assert(folded_at(g0, h, m, j));
            }
        }
    }
    assert forall|c: int| g0.nodes.len() <= c < h.nodes.len() implies fresh_const(
        #[trigger] h.nodes[c],
        c,
    ) by {
        if c < len {
            assert(fresh_const(g.nodes[c], c));
            assert(c != n);
            assert(h.nodes[c] == g.nodes[c]);
        } else {
            assert(h.nodes[c].outputs =~= seq![TensorFactValue::of_tensor(v)]);
            assert(h.nodes[c].inputs =~= Seq::empty());
        }
    }
    assert(folded_at(g0, h, n, i));
    assert forall|c: int| g0.nodes.len() <= c < h.nodes.len() implies #[trigger] read_once(g0, h, c) by {
        if c < len {
            assert(read_once(g0, g, c));
            let (a, b) = choose|a: int, b: int|
                {
                    &&& #[trigger] reads(g, a, b, c)
                    &&& g0.has_inlet(a, b)
                    &&& folded_at(g0, g, a, b)
                    &&& forall|m: int, j: int| #[trigger] reads(g, m, j, c) ==> m == a && j == b
                };
            assert(fresh_const(g.nodes[c], c));
            assert(!(a == n && b == i));
            assert(h.source(a, b) == g.source(a, b));
            assert(reads(h, a, b, c));
            assert(h.nodes[c].op == g.nodes[c].op);
            assert(folded_at(g0, h, a, b));
            assert forall|m: int, j: int| #[trigger] reads(h, m, j, c) implies m == a && j == b by {
                if m == n && j == i {
                } else if m < len {
                    assert(h.source(m, j) == g.source(m, j));
                    assert(reads(g, m, j, c));
                }
            }
        } else {
            assert(reads(h, n, i, c));
            assert forall|m: int, j: int| #[trigger] reads(h, m, j, c) implies m == n && j == i by {
                if m == n && j == i {
                } else if m < len {
                    assert(h.source(m, j) == g.source(m, j));
                    assert(g.has_inlet(m, j));
                    assert(g.has_outlet(g.source(m, j).unwrap()));
                }
            }
        }
    }
}

/// Folds inlet `ix` of node `node`: adds a node that produces the known
/// value as a constant, rewires the inlet to it, checks the graph, and sets
/// the fact on the new outlet.
fn fold_inlet(model: &mut Model, node: usize, ix: usize) -> (r: TractResult<()>)
    requires
        old(model)@.consistent(),
        old(model)@.has_inlet(node as int, ix as int),
        foldable(old(model)@, node as int, ix as int),
    ensures
        r is Ok,
        final(model)@ == with_folded_inlet(
            old(model)@,
            node as int,
            ix as int,
            old(model)@.fact(old(model)@.source(node as int, ix as int).unwrap()).value->Only_0,
        ),
{
    let ghost g = model@;
    let ghost rank = choose|rank: Seq<nat>| g.ranked_by(rank);
    let source = match model.nodes()[node].inputs[ix] {
        Some(o) => o,
        None => {
            return Err(TractError::DanglingEdge);
        },
    };
    let konst = match model.fact(source)?.concretize() {
        Some(t) => t,
        None => {
            return Err(TractError::ContradictoryFact);
        },
    };
    let ghost v = konst@;
    let id = model.nodes().len();
    let id = model.add_const(const_node_name(id), konst.clone());
    let grown = model.nodes().len();
    assert(grown == g.nodes.len() + 1);
    let ghost g1 = model@;
    let _ = model.remove_edge(InletId::new(node, ix))?;
    model.add_edge(OutletId::new(id, 0), InletId::new(node, ix))?;
    let ghost g2 = model@;
    proof {
        let inputs = g.nodes[node as int].inputs.update(ix as int, Some(OutletId { node: id, slot: 0 }));
        assert(g1.nodes[node as int].inputs == g.nodes[node as int].inputs);
        assert(g2.nodes[node as int].inputs =~= inputs);
        assert(g2.nodes =~= g1.with_inputs(node as int, inputs).nodes);
        assert(g2 == g1.with_inputs(node as int, inputs));
        lemma_fold_inlet(g, node as int, ix as int, v, rank);
        let h = with_folded_inlet(g, node as int, ix as int, v);
        // the graph before the fact is set has the edges of the final graph
        assert(g2.nodes.len() == h.nodes.len());
        assert(h.wf());
        assert forall|n: int| 0 <= n < h.nodes.len() implies (#[trigger] g2.nodes[n]).id == h.nodes[n].id
            && g2.nodes[n].inputs == h.nodes[n].inputs && g2.nodes[n].outputs.len()
            >= h.nodes[n].outputs.len() by {}
        lemma_same_edges(h, g2);
    }
    model.check_edges()?;
    model.set_fact(OutletId::new(id, 0), TensorFact::from_tensor(konst))?;
    Ok(())
}

/// A state of the walk back from the outputs: the work stack, whose last
/// entry is its top, and the nodes that are done.
#[verifier::ext_equal]
pub struct Walk {
    pub stack: Seq<usize>,
    pub done: Set<usize>,
}

/// Every inlet of node `v` takes its value from a node that is done.
pub open spec fn sources_done(g: ModelValue, v: int, done: Set<usize>) -> bool {
    forall|i: int| #[trigger] g.has_inlet(v, i) ==> (g.source(v, i) matches Some(o) && done.contains(o.node))
}

/// The nodes that node `v` takes its values from, in the order of its
/// inlets.
pub open spec fn producers(g: ModelValue, v: int) -> Seq<usize> {
    Seq::new(
        g.nodes[v].inputs.len(),
        |i: int|
            match g.source(v, i) {
                Some(o) => o.node,
                None => 0usize,
            },
    )
}

/// The top of the stack is not done and takes a value from a node that is
/// not done: its inlets are looked at next.
pub open spec fn expands(g: ModelValue, w: Walk) -> bool {
    &&& w.stack.len() > 0
    &&& !w.done.contains(w.stack.last())
    &&& !sources_done(g, w.stack.last() as int, w.done)
}

/// The inlets of the top of the stack are looked at next, and one of them
/// can be folded.
pub open spec fn noisy(g: ModelValue, w: Walk) -> bool {
    &&& expands(g, w)
    &&& exists|i: int| #[trigger]
        g.has_inlet(w.stack.last() as int, i) && foldable(g, w.stack.last() as int, i)
}

/// The state after one step of a walk that folds nothing: a top that is
/// done is popped; a top whose sources are done is marked done and popped;
/// under any other top the nodes behind its inlets are pushed.
pub open spec fn step(g: ModelValue, w: Walk) -> Walk {
    let top = w.stack.last();
    if w.done.contains(top) {
        Walk { stack: w.stack.drop_last(), done: w.done }
    } else if sources_done(g, top as int, w.done) {
        Walk { stack: w.stack.drop_last(), done: w.done.insert(top) }
    } else {
        Walk { stack: w.stack + producers(g, top as int), done: w.done }
    }
}

/// The state in which a walk starts: the nodes that hold the outputs of the
/// graph are on the stack, and no node is done.
pub open spec fn start(g: ModelValue) -> Walk {
    Walk { stack: Seq::new(g.outputs.len(), |k: int| g.outputs[k].node), done: Set::empty() }
}

/// `t` holds the first states of the walk over `g`, and in none of them
/// but perhaps the last can an inlet be folded.
pub open spec fn quiet_walk(g: ModelValue, t: Seq<Walk>) -> bool {
    &&& t.len() > 0
    &&& t[0] == start(g)
    &&& forall|k: int|
        0 <= k < t.len() - 1 ==> (#[trigger] t[k]).stack.len() > 0 && !noisy(g, t[k]) && t[k + 1]
            == step(g, t[k])
}

/// The walk over `g` comes to its end without finding an inlet to fold.
pub open spec fn quiet(g: ModelValue) -> bool {
    exists|t: Seq<Walk>| #[trigger] quiet_walk(g, t) && t.last().stack.len() == 0
}

/// A state of the walk that folds: the graph as it is by now, the work
/// stack, whose last entry is its top, and the nodes that are done.
#[verifier::ext_equal]
pub struct Visit {
    pub graph: ModelValue,
    pub stack: Seq<usize>,
    pub done: Set<usize>,
}

/// The graph after the first `upto` inlets of node `v` were looked at in
/// turn: each one that could be folded was folded to a new constant that
/// holds the value known of its source.
pub open spec fn looked_at(g: ModelValue, v: int, upto: int) -> ModelValue
    decreases upto,
{
    if upto <= 0 {
        g
    } else {
        let h = looked_at(g, v, upto - 1);
        if foldable(h, v, upto - 1) {
            with_folded_inlet(h, v, upto - 1, h.fact(h.source(v, upto - 1).unwrap()).value->Only_0)
        } else {
            h
        }
    }
}

/// The state after one step of the walk that folds: a top that is done is
/// popped; a top whose sources are done is marked done and popped, without a
/// look at its inlets; the inlets of any other top are looked at in turn,
/// and the nodes that are then behind them are pushed.
pub open spec fn visit_step(s: Visit) -> Visit {
    let top = s.stack.last();
    if s.done.contains(top) {
        Visit { graph: s.graph, stack: s.stack.drop_last(), done: s.done }
    } else if sources_done(s.graph, top as int, s.done) {
        Visit { graph: s.graph, stack: s.stack.drop_last(), done: s.done.insert(top) }
    } else {
        let h = looked_at(s.graph, top as int, s.graph.nodes[top as int].inputs.len() as int);
        Visit { graph: h, stack: s.stack + producers(h, top as int), done: s.done }
    }
}

/// `t` holds the first states of the walk that folds, begun on the graph
/// `g` with the nodes that hold its outputs on the stack.
pub open spec fn visits(g: ModelValue, t: Seq<Visit>) -> bool {
    &&& t.len() > 0
    &&& t[0] == (Visit { graph: g, stack: start(g).stack, done: Set::empty() })
    &&& forall|k: int|
        0 <= k < t.len() - 1 ==> (#[trigger] t[k]).stack.len() > 0 && t[k + 1] == visit_step(t[k])
}

/// The walk that folds, begun on `g`, comes to its end with the graph `h`.
pub open spec fn walked(g: ModelValue, h: ModelValue) -> bool {
    exists|t: Seq<Visit>| #[trigger] visits(g, t) && t.last().stack.len() == 0 && t.last().graph == h
}

/// Two records of the walk that folds, begun on the same graph, agree
/// wherever both have a state.
pub proof fn lemma_visits_agree(g: ModelValue, first: Seq<Visit>, second: Seq<Visit>, k: int)
    requires
        visits(g, first),
        visits(g, second),
        0 <= k < first.len(),
        k < second.len(),
    ensures
        first[k] == second[k],
    decreases k,
{
    if k > 0 {
        lemma_visits_agree(g, first, second, k - 1);
        assert(first[k - 1].stack.len() > 0 && first[k - 1 + 1] == visit_step(first[k - 1]));
        assert(second[k - 1].stack.len() > 0 && second[k - 1 + 1] == visit_step(second[k - 1]));
    }
}

/// The walk that folds has one end: the graph that constant propagation
/// makes of a graph is fixed by that graph.
pub proof fn lemma_walk_determined(g: ModelValue, first: ModelValue, second: ModelValue)
    requires
        walked(g, first),
        walked(g, second),
    ensures
        first == second,
{
    let a = choose|t: Seq<Visit>| #[trigger] visits(g, t) && t.last().stack.len() == 0 && t.last().graph == first;
    let b = choose|t: Seq<Visit>| #[trigger] visits(g, t) && t.last().stack.len() == 0 && t.last().graph == second;
    if a.len() <= b.len() {
        lemma_visits_agree(g, a, b, a.len() - 1);
        if a.len() < b.len() {
            assert(b[a.len() - 1].stack.len() > 0);
        }
    } else {
        lemma_visits_agree(g, a, b, b.len() - 1);
        assert(a[b.len() - 1].stack.len() > 0);
    }
}

/// What constant propagation makes of a graph: `h` is the graph with which
/// the walk that folds ends when it is begun on `g`. So `h` is `g` after
/// folding some of its inlets; it is consistent, and a walk over it finds
/// nothing more to fold. A graph in which a walk finds nothing to fold, and
/// so a graph without an inlet that can be folded, stays as it is.
pub open spec fn propagates(g: ModelValue, h: ModelValue) -> bool {
    &&& walked(g, h)
    &&& folds(g, h)
    &&& h.consistent()
    &&& quiet(h)
    &&& quiet(g) ==> h == g
    &&& is_folded(g) ==> h == g
}

/// Constant propagation is idempotent: applied to its own result, it
/// changes nothing.
pub proof fn lemma_propagation_idempotent(g: ModelValue, h: ModelValue, k: ModelValue)
    requires
        propagates(g, h),
        propagates(h, k),
    ensures
        k == h,
{
}

/// What is remembered of a walk: the states it went through, and which
/// entries of the stack had their inlets looked at.
pub struct Progress {
    pub trace: Seq<Walk>,
    pub expanded: Seq<bool>,
}

/// Every entry of every stack of `t` is a node of a graph with `len` nodes.
pub open spec fn in_range(t: Seq<Walk>, len: nat) -> bool {
    forall|k: int, j: int|
        0 <= k < t.len() && 0 <= j < t[k].stack.len() ==> (#[trigger] t[k].stack[j]) < len
}

/// Node `e` is on the stack above position `p`.
pub open spec fn above(needed: Seq<usize>, p: int, e: usize) -> bool {
    exists|q: int| p < q < needed.len() && (#[trigger] needed[q]) == e
}

/// Every source of an entry whose inlets were looked at is done or waits
/// above the entry.
pub open spec fn waiting(g: ModelValue, needed: Seq<usize>, expanded: Seq<bool>, done: Set<usize>) -> bool {
    forall|p: int, i: int|
        0 <= p < needed.len() && expanded[p] && #[trigger] g.has_inlet(needed[p] as int, i) ==> (g.source(
            needed[p] as int,
            i,
        ) matches Some(o) && (done.contains(o.node) || above(needed, p, o.node)))
}

/// Every entry above an entry whose inlets were looked at ranks lower.
pub open spec fn descending(needed: Seq<usize>, expanded: Seq<bool>, rank: Seq<nat>) -> bool {
    forall|q: int, p: int|
        #![trigger expanded[q], needed[p]]
        0 <= q < p < needed.len() && expanded[q] ==> rank[needed[p] as int] < rank[needed[q] as int]
}

/// Node `x` is done, or is an entry whose inlets were looked at.
pub open spec fn seen(needed: Seq<usize>, expanded: Seq<bool>, done: Set<usize>, x: usize) -> bool {
    done.contains(x) || exists|q: int| 0 <= q < needed.len() && expanded[q] && (#[trigger] needed[q]) == x
}

/// Every node that was the top of the stack in an earlier state is done, or
/// is an entry whose inlets were looked at.
pub open spec fn visited(t: Seq<Walk>, needed: Seq<usize>, expanded: Seq<bool>, done: Set<usize>) -> bool {
    forall|k: int| 0 <= k < t.len() - 1 ==> seen(needed, expanded, done, (#[trigger] t[k]).stack.last())
}

/// `progress` is what is remembered of the walk over `g` that has come to
/// the stack `needed` and the done nodes `done`.
pub open spec fn remembers(
    g: ModelValue,
    rank: Seq<nat>,
    needed: Seq<usize>,
    done: Set<usize>,
    progress: Progress,
) -> bool {
    &&& quiet_walk(g, progress.trace)
    &&& progress.trace.last() == (Walk { stack: needed, done })
    &&& in_range(progress.trace, g.nodes.len())
    &&& progress.expanded.len() == needed.len()
    &&& waiting(g, needed, progress.expanded, done)
    &&& descending(needed, progress.expanded, rank)
    &&& visited(progress.trace, needed, progress.expanded, done)
}

/// The walk goes on when its top is popped, be it that the top was done or
/// that it is marked done now.
proof fn lemma_track_pop(
    g: ModelValue,
    rank: Seq<nat>,
    needed: Seq<usize>,
    done: Set<usize>,
    after: Set<usize>,
    progress: Progress,
) -> (next: Progress)
    requires
        remembers(g, rank, needed, done, progress),
        needed.len() > 0,
        (done.contains(needed.last()) && after == done) || (!done.contains(needed.last())
            && sources_done(g, needed.last() as int, done) && after == done.insert(needed.last())),
    ensures
        remembers(g, rank, needed.drop_last(), after, next),
{
    let top = needed.last();
    let rest = needed.drop_last();
    let state = Walk { stack: rest, done: after };
    let t = progress.trace;
    let flags = progress.expanded.drop_last();
    let next = Progress { trace: t.push(state), expanded: flags };
    let last = t.len() - 1;
    assert(t[last] == (Walk { stack: needed, done }));
    assert(step(g, t[last]) =~= state);
    assert forall|k: int| 0 <= k < next.trace.len() - 1 implies (#[trigger] next.trace[k]).stack.len() > 0
        && !noisy(g, next.trace[k]) && next.trace[k + 1] == step(g, next.trace[k]) by {
        if k < last {
            assert(t[k].stack.len() > 0 && !noisy(g, t[k]) && t[k + 1] == step(g, t[k]));
            assert(next.trace[k + 1] == t[k + 1]);
        }
    }
    assert forall|k: int, j: int|
        0 <= k < next.trace.len() && 0 <= j < next.trace[k].stack.len() implies (#[trigger] next.trace[k].stack[j])
        < g.nodes.len() by {
        if k <= last {
            assert(t[k].stack[j] < g.nodes.len());
        } else {
            assert(t[last].stack[j] < g.nodes.len());
        }
    }
    assert forall|p: int, i: int|
        0 <= p < rest.len() && flags[p] && #[trigger] g.has_inlet(rest[p] as int, i) implies (g.source(
        rest[p] as int,
        i,
    ) matches Some(o) && (after.contains(o.node) || above(rest, p, o.node))) by {
        assert(progress.expanded[p]);
        assert(g.has_inlet(needed[p] as int, i));
        let o = g.source(needed[p] as int, i).unwrap();
        if !done.contains(o.node) {
            let q = choose|q: int| p < q < needed.len() && (#[trigger] needed[q]) == o.node;
            if q < rest.len() {
                assert(rest[q] == o.node);
            }
        }
    }
    assert forall|q: int, p: int|
        #![trigger flags[q], rest[p]]
        0 <= q < p < rest.len() && flags[q] implies rank[rest[p] as int] < rank[rest[q] as int] by {
        assert(progress.expanded[q]);
        assert(rank[needed[p] as int] < rank[needed[q] as int]);
    }
    assert forall|k: int| 0 <= k < next.trace.len() - 1 implies seen(
        rest,
        flags,
        after,
        (#[trigger] next.trace[k]).stack.last(),
    ) by {
        if k < last {
            let x = t[k].stack.last();
            assert(seen(needed, progress.expanded, done, x));
            if !done.contains(x) {
                let q = choose|q: int|
                    0 <= q < needed.len() && progress.expanded[q] && (#[trigger] needed[q]) == x;
                if q < rest.len() {
                    assert(flags[q] && rest[q] == x);
                }
            }
        }
    }
    next
}

/// The walk goes on when the nodes behind the inlets of its top are pushed,
/// none of which inlets can be folded.
proof fn lemma_track_expand(g: ModelValue, rank: Seq<nat>, needed: Seq<usize>, done: Set<usize>, progress: Progress) -> (next:
    Progress)
    requires
        g.consistent(),
        g.ranked_by(rank),
        remembers(g, rank, needed, done, progress),
        needed.len() > 0,
        !done.contains(needed.last()),
        !sources_done(g, needed.last() as int, done),
        forall|i: int| #[trigger] g.has_inlet(needed.last() as int, i) ==> !foldable(g, needed.last() as int, i),
    ensures
        remembers(g, rank, needed + producers(g, needed.last() as int), done, next),
{
    let top = needed.last();
    let pushed = producers(g, top as int);
    let longer = needed + pushed;
    let state = Walk { stack: longer, done };
    let t = progress.trace;
    let at = needed.len() - 1;
    let flags = progress.expanded.update(at, true) + Seq::new(pushed.len(), |i: int| false);
    let next = Progress { trace: t.push(state), expanded: flags };
    let last = t.len() - 1;
    assert(t[last] == (Walk { stack: needed, done }));
    assert(t[last].stack[at] < g.nodes.len());
    assert(step(g, t[last]) =~= state);
    assert(!noisy(g, t[last]));
    assert forall|k: int| 0 <= k < next.trace.len() - 1 implies (#[trigger] next.trace[k]).stack.len() > 0
        && !noisy(g, next.trace[k]) && next.trace[k + 1] == step(g, next.trace[k]) by {
        if k < last {
            assert(t[k].stack.len() > 0 && !noisy(g, t[k]) && t[k + 1] == step(g, t[k]));
            assert(next.trace[k + 1] == t[k + 1]);
        }
    }
    assert forall|k: int, j: int|
        0 <= k < next.trace.len() && 0 <= j < next.trace[k].stack.len() implies (#[trigger] next.trace[k].stack[j])
        < g.nodes.len() by {
        if k <= last {
            assert(t[k].stack[j] < g.nodes.len());
        } else if j < needed.len() {
            assert(t[last].stack[j] < g.nodes.len());
        } else {
            let i = j - needed.len();
            assert(g.has_inlet(top as int, i));
            assert(g.has_outlet(g.source(top as int, i).unwrap()));
        }
    }
    assert forall|p: int, i: int|
        0 <= p < longer.len() && flags[p] && #[trigger] g.has_inlet(longer[p] as int, i) implies (g.source(
        longer[p] as int,
        i,
    ) matches Some(o) && (done.contains(o.node) || above(longer, p, o.node))) by {
        if p == at {
            assert(g.has_inlet(top as int, i));
            let o = g.source(top as int, i).unwrap();
            assert(longer[needed.len() + i] == o.node);
        } else {
            assert(progress.expanded[p]);
            assert(g.has_inlet(needed[p] as int, i));
            let o = g.source(needed[p] as int, i).unwrap();
            if !done.contains(o.node) {
                let q = choose|q: int| p < q < needed.len() && (#[trigger] needed[q]) == o.node;
                assert(longer[q] == o.node);
            }
        }
    }
    assert forall|q: int, p: int|
        #![trigger flags[q], longer[p]]
        0 <= q < p < longer.len() && flags[q] implies rank[longer[p] as int] < rank[longer[q] as int] by {
        if p < needed.len() {
            assert(progress.expanded[q]);
            assert(rank[needed[p] as int] < rank[needed[q] as int]);
        } else {
            let i = p - needed.len();
            assert(g.has_inlet(top as int, i));
            if q < at {
                assert(progress.expanded[q]);
                assert(rank[needed[at] as int] < rank[needed[q] as int]);
            }
        }
    }
    assert forall|k: int| 0 <= k < next.trace.len() - 1 implies seen(
        longer,
        flags,
        done,
        (#[trigger] next.trace[k]).stack.last(),
    ) by {
        if k < last {
            let x = t[k].stack.last();
            assert(seen(needed, progress.expanded, done, x));
            if !done.contains(x) {
                let q = choose|q: int|
                    0 <= q < needed.len() && progress.expanded[q] && (#[trigger] needed[q]) == x;
                assert(flags[q] && longer[q] == x);
            }
        } else {
            assert(flags[at] && longer[at] == top);
        }
    }
    next
}

/// Folding an inlet of the top of the stack, which is not done and has a
/// source that is not done, does not touch what is remembered of the walk:
/// the top was never looked at before.
proof fn lemma_track_fold(
    g: ModelValue,
    i: int,
    v: TensorValue,
    rank: Seq<nat>,
    needed: Seq<usize>,
    done: Set<usize>,
    progress: Progress,
)
    requires
        g.consistent(),
        g.ranked_by(rank),
        g.nodes.len() < usize::MAX,
        remembers(g, rank, needed, done, progress),
        needed.len() > 0,
        g.has_inlet(needed.last() as int, i),
        !done.contains(needed.last()),
        !sources_done(g, needed.last() as int, done),
    ensures
        remembers(with_folded_inlet(g, needed.last() as int, i, v), rank.push(0), needed, done, progress),
{
    let n = needed.last();
    let h = with_folded_inlet(g, n as int, i, v);
    let t = progress.trace;
    let flags = progress.expanded;
    let at = needed.len() - 1;
    let last = t.len() - 1;
    assert(t[last] == (Walk { stack: needed, done }));
    // the top was not looked at before
    if flags[at] {
        assert forall|j: int| #[trigger] g.has_inlet(n as int, j) implies (g.source(n as int, j) matches Some(
            o,
        ) && done.contains(o.node)) by {
            assert(g.has_inlet(needed[at] as int, j));
            let o = g.source(n as int, j).unwrap();
            if !done.contains(o.node) {
                let q = choose|q: int| at < q < needed.len() && (#[trigger] needed[q]) == o.node;
            }
        }
    }
    assert(!flags[at]);
    assert forall|p: int| 0 <= p < needed.len() && flags[p] implies (#[trigger] needed[p]) != n by {
        assert(rank[needed[at] as int] < rank[needed[p] as int]);
    }
    assert forall|k: int| 0 <= k < last implies (#[trigger] t[k]).stack.last() != n by {
        let x = t[k].stack.last();
        assert(seen(needed, flags, done, x));
        if !done.contains(x) {
            let q = choose|q: int| 0 <= q < needed.len() && flags[q] && (#[trigger] needed[q]) == x;
            assert(needed[q] != n);
        }
    }
    // every other node is as it was
    assert forall|x: int| 0 <= x < g.nodes.len() && x != n implies h.nodes[x] == g.nodes[x] by {}
    assert forall|x: int, j: int|
        0 <= x < g.nodes.len() && x != n && #[trigger] g.has_inlet(x, j) implies foldable(h, x, j)
        == foldable(g, x, j) by {
        if let Some(o) = g.source(x, j) {
            assert(g.has_outlet(o));
        }
    }
    assert(start(h) =~= start(g));
    assert forall|k: int| 0 <= k < t.len() - 1 implies (#[trigger] t[k]).stack.len() > 0 && !noisy(h, t[k])
        && t[k + 1] == step(h, t[k]) by {
        assert(t[k].stack.len() > 0 && !noisy(g, t[k]) && t[k + 1] == step(g, t[k]));
        let x = t[k].stack.last();
        assert(t[k].stack[t[k].stack.len() - 1] < g.nodes.len());
        assert(x != n);
        assert(h.nodes[x as int] == g.nodes[x as int]);
        assert(sources_done(h, x as int, t[k].done) == sources_done(g, x as int, t[k].done)) by {
            if sources_done(g, x as int, t[k].done) {
                assert forall|j: int| #[trigger] h.has_inlet(x as int, j) implies (h.source(
                    x as int,
                    j,
                ) matches Some(o) && t[k].done.contains(o.node)) by {
                    assert(g.has_inlet(x as int, j));
                }
            }
            if sources_done(h, x as int, t[k].done) {
                assert forall|j: int| #[trigger] g.has_inlet(x as int, j) implies (g.source(
                    x as int,
                    j,
                ) matches Some(o) && t[k].done.contains(o.node)) by {
                    assert(h.has_inlet(x as int, j));
                }
            }
        }
        assert(producers(h, x as int) =~= producers(g, x as int));
        assert(step(h, t[k]) =~= step(g, t[k]));
        if noisy(h, t[k]) {
            let j = choose|j: int| #[trigger] h.has_inlet(x as int, j) && foldable(h, x as int, j);
            assert(g.has_inlet(x as int, j));
            assert(foldable(g, x as int, j));
        }
    }
    assert forall|p: int, j: int|
        0 <= p < needed.len() && flags[p] && #[trigger] h.has_inlet(needed[p] as int, j) implies (h.source(
        needed[p] as int,
        j,
    ) matches Some(o) && (done.contains(o.node) || above(needed, p, o.node))) by {
        assert(needed[p] != n);
        assert(t[last].stack[p] < g.nodes.len());
        assert(h.nodes[needed[p] as int] == g.nodes[needed[p] as int]);
        assert(g.has_inlet(needed[p] as int, j));
    }
    assert forall|q: int, p: int|
        #![trigger flags[q], needed[p]]
        0 <= q < p < needed.len() && flags[q] implies rank.push(0)[needed[p] as int] < rank.push(
        0,
    )[needed[q] as int] by {
        assert(t[last].stack[p] < g.nodes.len());
        assert(t[last].stack[q] < g.nodes.len());
        assert(rank[needed[p] as int] < rank[needed[q] as int]);
    }
    assert forall|k: int, j: int|
        0 <= k < t.len() && 0 <= j < t[k].stack.len() implies (#[trigger] t[k].stack[j]) < h.nodes.len() by {
        assert(t[k].stack[j] < g.nodes.len());
    }
}

/// The walk that folds goes on by one step.
proof fn lemma_visits_push(g: ModelValue, t: Seq<Visit>, next: Visit) -> (longer: Seq<Visit>)
    requires
        visits(g, t),
        t.last().stack.len() > 0,
        next == visit_step(t.last()),
    ensures
        longer == t.push(next),
        visits(g, longer),
        longer.last() == next,
{
    let longer = t.push(next);
    assert forall|k: int| 0 <= k < longer.len() - 1 implies (#[trigger] longer[k]).stack.len() > 0
        && longer[k + 1] == visit_step(longer[k]) by {
        if k < t.len() - 1 {
            assert(t[k].stack.len() > 0 && t[k + 1] == visit_step(t[k]));
        }
    }
    longer
}

/// The rank of the topmost entry of the work stack that is not done, or 0
/// when every entry is done.
pub open spec fn top_rank(needed: Seq<usize>, done: Set<usize>, rank: Seq<nat>) -> nat
    decreases needed.len(),
{
    if needed.len() == 0 {
        0
    } else if !done.contains(needed.last()) {
        rank[needed.last() as int]
    } else {
        top_rank(needed.drop_last(), done, rank)
    }
}

/// Whether every source of node `node` is an outlet of a node in `done`.
fn all_sources_done(model: &Model, node: usize, done: &bit_set::BitSet<u32>) -> (r: bool)
    requires
        model@.consistent(),
        node < model@.nodes.len(),
    ensures
        r == sources_done(model@, node as int, members(*done)),
{
    let arity = model.input_count(node);
    let mut i: usize = 0;
    while i < arity
        invariant
            i <= arity,
            node < model@.nodes.len(),
            arity == model@.nodes[node as int].inputs.len(),
            model@.consistent(),
            forall|j: int|
                0 <= j < i && #[trigger] model@.has_inlet(node as int, j) ==> (model@.source(
                    node as int,
                    j,
                ) matches Some(o) && members(*done).contains(o.node)),
        decreases arity - i,
    {
        proof {
            assert(model@.has_inlet(node as int, i as int));
        }
        match model.input(node, i) {
            Some(o) => {
                if !bitset_contains(done, o.node) {
                    return false;
                }
            },
            None => {},
        }
        i += 1;
    }
    true
}

/// Folding one inlet of a node does not change whether another inlet of
/// that node can be folded, nor the node behind it.
proof fn lemma_fold_keeps_inlet(g: ModelValue, n: int, i: int, v: TensorValue, j: int)
    requires
        g.wf(),
        g.nodes.len() < usize::MAX,
        g.has_inlet(n, i),
        g.has_inlet(n, j),
        j != i,
    ensures
        with_folded_inlet(g, n, i, v).has_inlet(n, j),
        with_folded_inlet(g, n, i, v).source(n, j) == g.source(n, j),
        foldable(with_folded_inlet(g, n, i, v), n, j) == foldable(g, n, j),
{
    if let Some(o) = g.source(n, j) {
        assert(g.has_outlet(o));
    }
}

/// The pass that folds known values into constants.
#[derive(Clone, Copy, Debug, PartialEq, Eq, Structural)]
pub struct PropConst;

impl OptimizerPass for PropConst {
    open spec fn outcome(&self, before: ModelValue, after: ModelValue, r: Result<bool, TractError>) -> bool {
        propagates(before, after) && r == Ok::<bool, TractError>(after.nodes.len() > before.nodes.len())
    }

    /// Walks back from the outputs of the graph. A node is done once all the
    /// nodes it takes inputs from are done. Until then each of its inlets is
    /// looked at: one that takes a known value from a node that is not a
    /// constant is folded, and the node behind every inlet, which for a
    /// folded inlet is the new constant, is visited next.
    #[verifier::rlimit(60)]
    fn pass(&self, model: &mut Model) -> (r: TractResult<bool>)
        ensures
            propagates(old(model)@, final(model)@),
            r matches Ok(changed) && changed == (final(model)@.nodes.len() > old(model)@.nodes.len()),
    {
        let ghost g0 = model@;
        let ghost guide: Seq<Walk> = choose|t: Seq<Walk>| #[trigger]
            quiet_walk(g0, t) && t.last().stack.len() == 0;
        let ghost mut at: int = 0;
        let ghost mut rank: Seq<nat> = choose|rank: Seq<nat>| g0.ranked_by(rank);
        let mut replaced: usize = 0;
        let mut done = bitset_with_capacity(model.nodes().len());
        let mut needed: Vec<usize> = Vec::new();
        let mut k: usize = 0;
        while k < model.outputs().len()
            invariant
                k <= g0.outputs.len(),
                model@ == g0,
                g0.wf(),
                needed@ =~= Seq::new(k as nat, |j: int| g0.outputs[j].node),
            decreases model@.outputs.len() - k,
        {
            let o = model.outputs()[k];
            needed.push(o.node);
            k += 1;
        }
        let ghost mut progress = Progress {
            trace: seq![start(g0)],
            expanded: Seq::new(needed@.len(), |j: int| false),
        };
        let ghost mut history: Seq<Visit> = seq![
            Visit { graph: g0, stack: start(g0).stack, done: Set::empty() },
        ];
        proof {
            assert(needed@ =~= start(g0).stack);
            assert(members(done) =~= start(g0).done);
            assert forall|t: int, j: int|
                0 <= t < progress.trace.len() && 0 <= j < progress.trace[t].stack.len() implies (#[trigger] progress.trace[t].stack[j])
                < g0.nodes.len() by {
                assert(g0.has_outlet(g0.outputs[j]));
            }
            assert(remembers(g0, rank, needed@, members(done), progress));
        }
        while needed.len() > 0
            invariant
                g0.consistent(),
                model@.consistent(),
                model@.ranked_by(rank),
                folds(g0, model@),
                replaced == model@.nodes.len() - g0.nodes.len(),
                replaced == 0 ==> model@ == g0,
                is_folded(g0) ==> replaced == 0,
                quiet(g0) ==> replaced == 0 && quiet_walk(g0, guide) && guide.last().stack.len() == 0
                    && 0 <= at < guide.len() && guide[at] == (Walk {
                    stack: needed@,
                    done: members(done),
                }),
                members(done).finite(),
                forall|v: usize| members(done).contains(v) ==> v < model@.nodes.len(),
                remembers(model@, rank, needed@, members(done), progress),
                visits(g0, history),
                history.last() == (Visit { graph: model@, stack: needed@, done: members(done) }),
            decreases
                    foreign_total(model@),
                    model@.nodes.len() - members(done).len(),
                    top_rank(needed@, members(done), rank),
                    needed@.len(),
        {
            let count = model.nodes().len();
            proof {
                <usize as vstd::set_lib::FiniteRange>::range_properties(0, count);
                vstd::set_lib::lemma_len_subset(
                    members(done),
                    <usize as vstd::set_lib::FiniteRange>::range_set(0, count),
                );
                let last = progress.trace.len() - 1;
                assert(progress.trace[last].stack[needed@.len() - 1] < model@.nodes.len());
            }
            let node = needed[needed.len() - 1];
            let ghost stack = needed@;
            let ghost done_before = members(done);
            if bitset_contains(&done, node) {
                needed.pop();
                proof {
                    progress = lemma_track_pop(model@, rank, stack, done_before, done_before, progress);
                    history = lemma_visits_push(
                        g0,
                        history,
                        Visit { graph: model@, stack: needed@, done: members(done) },
                    );
                    if quiet(g0) {
                        assert(step(g0, guide[at]) =~= (Walk { stack: needed@, done: members(done) }));
                        at = at + 1;
                    }
                }
            } else if all_sources_done(model, node, &done) {
                needed.pop();
                proof {
                    vstd::set::axiom_set_insert_len(members(done), node);
                    vstd::set::axiom_set_insert_finite(members(done), node);
                }
                bitset_insert(&mut done, node);
                proof {
                    vstd::set_lib::lemma_len_subset(
                        members(done),
                        <usize as vstd::set_lib::FiniteRange>::range_set(0, count),
                    );
                    progress = lemma_track_pop(model@, rank, stack, done_before, members(done), progress);
                    history = lemma_visits_push(
                        g0,
                        history,
                        Visit { graph: model@, stack: needed@, done: members(done) },
                    );
                    if quiet(g0) {
                        assert(step(g0, guide[at]) =~= (Walk { stack: needed@, done: members(done) }));
                        at = at + 1;
                    }
                }
            } else {
                let ghost before = model@;
                let ghost rank_before = rank;
                let started = replaced;
                let arity = model.input_count(node);
                let ghost mut found = false;
                let ghost mut open_inlet: int = choose|i: int| #[trigger]
                    before.has_inlet(node as int, i) && !(before.source(node as int, i) matches Some(o)
                        && done_before.contains(o.node));
                let mut ix: usize = 0;
                proof {
                    assert(stack + producers(before, node as int).take(0) =~= stack);
                }
                while ix < arity
                    invariant
                        ix <= arity,
                        g0.consistent(),
                        model@.consistent(),
                        model@.ranked_by(rank),
                        folds(g0, model@),
                        replaced == model@.nodes.len() - g0.nodes.len(),
                        replaced == 0 ==> model@ == g0,
                        is_folded(g0) ==> replaced == 0,
                        quiet(g0) ==> replaced == 0 && quiet_walk(g0, guide) && guide.last().stack.len()
                            == 0 && 0 <= at < guide.len() && guide[at] == (Walk {
                            stack: stack,
                            done: members(done),
                        }),
                        started <= replaced,
                        node < model@.nodes.len(),
                        arity == model@.nodes[node as int].inputs.len(),
                        members(done) == done_before,
                        members(done).finite(),
                        forall|v: usize| members(done).contains(v) ==> v < before.nodes.len(),
                        before.nodes.len() <= model@.nodes.len(),
                        !members(done).contains(node),
                        stack.len() > 0 && stack.last() == node,
                        remembers(model@, rank, stack, members(done), progress),
                        visits(g0, history),
                        history.last() == (Visit { graph: before, stack: stack, done: members(done) }),
                        arity == before.nodes[node as int].inputs.len(),
                        !sources_done(before, node as int, members(done)),
                        model@ == looked_at(before, node as int, ix as int),
                        needed@ =~= stack + producers(model@, node as int).take(ix as int),
                        forall|j: int| 0 <= j < ix ==> !foldable(model@, node as int, j),
                        model@.has_inlet(node as int, open_inlet) && !(model@.source(
                            node as int,
                            open_inlet,
                        ) matches Some(o) && members(done).contains(o.node)),
                        replaced == started ==> model@ == before && rank == rank_before,
                        replaced == started && found ==> top_rank(needed@, members(done), rank)
                            < rank[node as int],
                        replaced == started && !found ==> top_rank(needed@, members(done), rank)
                            == rank[node as int] && forall|j: int|
                            0 <= j < ix && #[trigger] model@.has_inlet(node as int, j)
                                ==> members(done).contains(model@.source(node as int, j).unwrap().node),
                        replaced > started ==> foreign_total(model@) < foreign_total(before),
                    decreases arity - ix,
                {
                    proof {
                        assert(model@.has_inlet(node as int, ix as int));
                    }
                    let ghost g = model@;
                    let ghost pushed = producers(g, node as int).take(ix as int);
                    let source = match model.input(node, ix) {
                        Some(o) => o,
                        None => {
                            return Err(TractError::DanglingEdge);
                        },
                    };
                    if !model.is_const_node(source.node) && model.fact(source)?.is_concrete() {
                        let ghost v = g.fact(source).value->Only_0;
                        proof {
                            if quiet(g0) {
                                assert(guide[at].stack.len() > 0);
                                assert(!noisy(g0, guide[at]));
                                assert(expands(g0, guide[at]));
                                assert(g0.has_inlet(node as int, ix as int) && foldable(
                                    g0,
                                    node as int,
                                    ix as int,
                                ));
                            }
                        }
                        fold_inlet(model, node, ix)?;
                        let grown = model.nodes().len();
                        proof {
                            let h = with_folded_inlet(g, node as int, ix as int, v);
                            assert(model@ == h);
                            assert(h.nodes.len() == g.nodes.len() + 1);
                        }
                        let id = grown - 1;
                        proof {
                            lemma_fold_inlet(g, node as int, ix as int, v, rank);
                            lemma_folds_step(g0, g, node as int, ix as int, v);
                            assert(!sources_done(g, node as int, members(done))) by {
                                assert(g.has_inlet(node as int, open_inlet));
                            }
                            lemma_track_fold(g, ix as int, v, rank, stack, members(done), progress);
                            rank = rank.push(0);
                            if is_folded(g0) {
                                assert(g0.has_inlet(node as int, ix as int));
                            }
                            assert forall|j: int| 0 <= j < ix + 1 implies !foldable(
                                model@,
                                node as int,
                                j,
                            ) by {
                                if j < ix {
                                    assert(g.has_inlet(node as int, j));
                                    lemma_fold_keeps_inlet(g, node as int, ix as int, v, j);
                                }
                            }
                            if open_inlet != ix {
                                lemma_fold_keeps_inlet(g, node as int, ix as int, v, open_inlet);
                            }
                            assert(producers(model@, node as int).take(ix as int) =~= pushed) by {
                                assert forall|j: int| 0 <= j < ix implies producers(model@, node as int)[j]
                                    == producers(g, node as int)[j] by {
                                    assert(g.has_inlet(node as int, j));
                                    lemma_fold_keeps_inlet(g, node as int, ix as int, v, j);
                                }
                            }
                            assert(producers(model@, node as int).take(ix + 1) =~= pushed.push(id));
                        }
                        needed.push(id);
                        replaced += 1;
                    } else {
                        proof {
                            if replaced == started {
                                let e = source.node;
                                let longer = needed@.push(e);
                                assert(longer.drop_last() =~= needed@);
                                assert(longer.last() == e);
                                if !members(done).contains(e) {
                                    found = true;
                                }
                            }
                            assert(producers(g, node as int).take(ix + 1) =~= pushed.push(source.node));
                            assert(g.has_outlet(source));
                        }
                        needed.push(source.node);
                    }
                    ix += 1;
                }
                proof {
                    if replaced == started {
                        if !found {
                            assert forall|i: int| #[trigger]
                                model@.has_inlet(node as int, i) implies members(done).contains(
                                model@.source(node as int, i).unwrap().node,
                            ) by {}
                            assert(model@.has_inlet(node as int, open_inlet));
                        }
                    }
                    assert(producers(model@, node as int).take(arity as int) =~= producers(
                        model@,
                        node as int,
                    ));
                    assert(!sources_done(model@, node as int, members(done))) by {
                        assert(model@.has_inlet(node as int, open_inlet));
                    }
                    progress = lemma_track_expand(model@, rank, stack, members(done), progress);
                    history = lemma_visits_push(
                        g0,
                        history,
                        Visit { graph: model@, stack: needed@, done: members(done) },
                    );
                    if quiet(g0) {
                        assert(step(g0, guide[at]) =~= (Walk { stack: needed@, done: members(done) }));
                        at = at + 1;
                    }
                }
            }
        }
        proof {
            assert(quiet_walk(model@, progress.trace) && progress.trace.last().stack.len() == 0);
            assert(visits(g0, history) && history.last().stack.len() == 0 && history.last().graph
                == model@);
        }
        Ok(replaced > 0)
    }
}

} // verus!
