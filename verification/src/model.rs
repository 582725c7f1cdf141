//! The dataflow graph: nodes, each with one operator, and edges from an
//! output slot of one node (an outlet) to an input slot of another (an
//! inlet). Every outlet carries a fact about the tensor that flows out of it.

use vstd::prelude::*;
use vstd::set_lib::{lemma_int_range, lemma_len_subset, set_int_range};
use crate::analyser::types::{TensorFact, TensorFactValue};
use crate::errors::{TractError, TractResult};
use crate::ops::konst::Const;
use crate::ops::{Operator, OperatorValue};
use crate::tensor::Tensor;

verus! {

/// An output slot of a node.
#[derive(Clone, Copy, Debug, PartialEq, Eq, Structural)]
pub struct OutletId {
    pub node: usize,
    pub slot: usize,
}

impl OutletId {
    pub fn new(node: usize, slot: usize) -> (r: OutletId)
        ensures
            r == (OutletId { node, slot }),
    {
        OutletId { node, slot }
    }
}

/// An input slot of a node.
#[derive(Clone, Copy, Debug, PartialEq, Eq, Structural)]
pub struct InletId {
    pub node: usize,
    pub slot: usize,
}

impl InletId {
    pub fn new(node: usize, slot: usize) -> (r: InletId)
        ensures
            r == (InletId { node, slot }),
    {
        InletId { node, slot }
    }
}

/// One node of a graph.
#[derive(Debug)]
pub struct Node {
    /// The position of the node in its graph.
    pub id: usize,
    pub name: String,
    pub op: Operator,
    /// The source of each inlet, in slot order; `None` for an inlet whose
    /// edge was discarded and not yet replaced.
    pub inputs: Vec<Option<OutletId>>,
    /// The fact on each outlet, in slot order.
    pub outputs: Vec<TensorFact>,
}

/// What a node holds.
pub struct NodeValue {
    pub id: usize,
    pub name: Seq<char>,
    pub op: OperatorValue,
    pub inputs: Seq<Option<OutletId>>,
    pub outputs: Seq<TensorFactValue>,
}

impl View for Node {
    type V = NodeValue;

    open spec fn view(&self) -> NodeValue {
        NodeValue {
            id: self.id,
            name: self.name@,
            op: self.op@,
            inputs: self.inputs@,
            outputs: self.outputs.deep_view(),
        }
    }
}

impl DeepView for Node {
    type V = NodeValue;

    open spec fn deep_view(&self) -> NodeValue {
        self@
    }
}

/// What a graph holds: its nodes in the order in which they were added, and
/// the outlets that are the outputs of the whole graph.
pub struct ModelValue {
    pub nodes: Seq<NodeValue>,
    pub outputs: Seq<OutletId>,
}

impl ModelValue {
    /// Node `n` exists and has an inlet `i`.
    pub open spec fn has_inlet(self, n: int, i: int) -> bool {
        0 <= n < self.nodes.len() && 0 <= i < self.nodes[n].inputs.len()
    }

    /// The source of inlet `i` of node `n`, if the inlet is bound.
    pub open spec fn source(self, n: int, i: int) -> Option<OutletId> {
        self.nodes[n].inputs[i]
    }

    /// The graph has the outlet `o`.
    pub open spec fn has_outlet(self, o: OutletId) -> bool {
        o.node < self.nodes.len() && o.slot < self.nodes[o.node as int].outputs.len()
    }

    /// The fact on the outlet `o`.
    pub open spec fn fact(self, o: OutletId) -> TensorFactValue {
        self.nodes[o.node as int].outputs[o.slot as int]
    }

    /// Every node knows its position, and every edge and every graph output
    /// names an outlet that the graph has.
    pub open spec fn wf(self) -> bool {
        &&& forall|n: int| 0 <= n < self.nodes.len() ==> (#[trigger] self.nodes[n]).id == n
        &&& forall|n: int, i: int| #[trigger]
            self.has_inlet(n, i) ==> (self.source(n, i) matches Some(o) ==> self.has_outlet(o))
        &&& forall|k: int|
            0 <= k < self.outputs.len() ==> self.has_outlet(#[trigger] self.outputs[k])
    }

    /// Every inlet has a source.
    pub open spec fn all_bound(self) -> bool {
        forall|n: int, i: int| #[trigger] self.has_inlet(n, i) ==> self.source(n, i) is Some
    }

    /// `rank` gives every node a number larger than that of each node it
    /// takes an input from.
    pub open spec fn ranked_by(self, rank: Seq<nat>) -> bool {
        &&& rank.len() == self.nodes.len()
        &&& forall|n: int, i: int| #[trigger]
            self.has_inlet(n, i) ==> (self.source(n, i) matches Some(o) ==> rank[o.node as int]
                < rank[n])
    }

    /// No node depends on itself, directly or through other nodes.
    pub open spec fn acyclic(self) -> bool {
        exists|rank: Seq<nat>| self.ranked_by(rank)
    }

    /// The graph is well formed, every inlet has exactly one source, and
    /// there is no cycle.
    pub open spec fn consistent(self) -> bool {
        &&& self.wf()
        &&& self.all_bound()
        &&& self.acyclic()
    }

    /// Inlet `i` of node `n` is bound to a node that `placed` leaves out.
    pub open spec fn blocked_at(self, placed: Seq<bool>, n: int, i: int) -> bool {
        &&& self.has_inlet(n, i)
        &&& self.source(n, i) matches Some(o)
        &&& !placed[o.node as int]
    }

    /// Every node that `placed` leaves out takes an input from another node
    /// that `placed` leaves out.
    pub open spec fn all_blocked(self, placed: Seq<bool>) -> bool {
        forall|m: int|
            0 <= m < self.nodes.len() && !(#[trigger] placed[m]) ==> exists|i: int| #[trigger]
                self.blocked_at(placed, m, i)
    }

    /// The graph with one more node, which has no inlet and one outlet of
    /// which nothing is known.
    pub open spec fn with_node(self, name: Seq<char>, op: OperatorValue) -> ModelValue {
        ModelValue {
            nodes: self.nodes.push(
                NodeValue {
                    id: self.nodes.len() as usize,
                    name,
                    op,
                    inputs: Seq::empty(),
                    outputs: seq![TensorFactValue::any()],
                },
            ),
            outputs: self.outputs,
        }
    }

    /// The graph with the inputs of node `n` replaced by `inputs`.
    pub open spec fn with_inputs(self, n: int, inputs: Seq<Option<OutletId>>) -> ModelValue {
        ModelValue {
            nodes: self.nodes.update(n, NodeValue { inputs, ..self.nodes[n] }),
            outputs: self.outputs,
        }
    }

    /// The graph with the fact on the outlet `o` replaced by `fact`.
    pub open spec fn with_fact(self, o: OutletId, fact: TensorFactValue) -> ModelValue {
        let node = self.nodes[o.node as int];
        ModelValue {
            nodes: self.nodes.update(
                o.node as int,
                NodeValue { outputs: node.outputs.update(o.slot as int, fact), ..node },
            ),
            outputs: self.outputs,
        }
    }

    /// The sources that a replacing operator takes: input `j` of the new
    /// operator is input `rewired[j]` of the old one.
    pub open spec fn rewired_inputs(self, n: int, rewired: Seq<usize>) -> Seq<Option<OutletId>> {
        Seq::new(rewired.len(), |j: int| self.nodes[n].inputs[rewired[j] as int])
    }

    /// Whether every input that a replacing operator takes is an input of
    /// node `n`.
    pub open spec fn can_rewire(self, n: int, rewired: Seq<usize>) -> bool {
        &&& 0 <= n < self.nodes.len()
        &&& forall|j: int| 0 <= j < rewired.len() ==> (#[trigger] rewired[j]) < self.nodes[n].inputs.len()
    }

    /// The graph with the operator of node `n` replaced by `op`, which
    /// takes the inputs that `rewired` selects.
    pub open spec fn with_op(self, n: int, op: OperatorValue, rewired: Seq<usize>) -> ModelValue {
        ModelValue {
            nodes: self.nodes.update(
                n,
                NodeValue { op, inputs: self.rewired_inputs(n, rewired), ..self.nodes[n] },
            ),
            outputs: self.outputs,
        }
    }

    /// What `add_edge` does: the error it reports, or the graph with the
    /// edge. The inlet is either the next one of its node or an existing one
    /// without a source.
    pub open spec fn with_edge(self, outlet: OutletId, inlet: InletId) -> Result<
        ModelValue,
        TractError,
    > {
        if !self.has_outlet(outlet) || inlet.node >= self.nodes.len() {
            Err(TractError::DanglingEdge)
        } else {
            let inputs = self.nodes[inlet.node as int].inputs;
            if inlet.slot > inputs.len() {
                Err(TractError::DanglingEdge)
            } else if inlet.slot == inputs.len() {
                Ok(self.with_inputs(inlet.node as int, inputs.push(Some(outlet))))
            } else if inputs[inlet.slot as int] is Some {
                Err(TractError::DuplicateInlet)
            } else {
                Ok(self.with_inputs(inlet.node as int, inputs.update(inlet.slot as int, Some(outlet))))
            }
        }
    }
}

/// A graph in which some node is left out of `placed`, and every node left
/// out takes an input from another node left out, has a cycle: no ranking
/// fits it.
pub proof fn lemma_blocked_not_ranked(g: ModelValue, placed: Seq<bool>, rank: Seq<nat>, n: int)
    requires
        g.wf(),
        rank.len() == g.nodes.len(),
        placed.len() == g.nodes.len(),
        0 <= n < g.nodes.len(),
        !placed[n],
        g.all_blocked(placed),
    ensures
        !g.ranked_by(rank),
    decreases rank[n],
{
    if g.ranked_by(rank) {
        let i = choose|i: int| #[trigger] g.blocked_at(placed, n, i);
        let o = g.source(n, i).unwrap();
        assert(g.has_inlet(n, i));
        lemma_blocked_not_ranked(g, placed, rank, o.node as int);
    }
}

/// A node without inlets can be added to a ranked graph with any rank.
pub proof fn lemma_with_node_ranked(g: ModelValue, rank: Seq<nat>, name: Seq<char>, op: OperatorValue)
    requires
        g.wf(),
        g.ranked_by(rank),
    ensures
        g.with_node(name, op).ranked_by(rank.push(0)),
{
    let h = g.with_node(name, op);
    let r = rank.push(0);
    assert forall|n: int, i: int| #[trigger] h.has_inlet(n, i) implies (h.source(n, i) matches Some(
        o,
    ) ==> r[o.node as int] < r[n]) by {
        if n < g.nodes.len() {
            assert(g.has_inlet(n, i));
        }
    }
}

/// The first position of `v` that holds `false`, if there is one.
fn first_false(v: &Vec<bool>) -> (r: Option<usize>)
    ensures
        match r {
            Some(q) => q < v@.len() && !v@[q as int],
            None => forall|j: int| 0 <= j < v@.len() ==> v@[j],
        },
{
    let mut q: usize = 0;
    while q < v.len()
        invariant
            q <= v.len(),
            forall|j: int| 0 <= j < q ==> v@[j],
        decreases v.len() - q,
    {
        if !v[q] {
            return Some(q);
        }
        q += 1;
    }
    None
}

/// A dataflow graph.
#[derive(Debug)]
pub struct Model {
    nodes: Vec<Node>,
    outputs: Vec<OutletId>,
}

impl View for Model {
    type V = ModelValue;

    closed spec fn view(&self) -> ModelValue {
        ModelValue { nodes: self.nodes.deep_view(), outputs: self.outputs@ }
    }
}

impl Model {
    /// The empty graph.
    pub fn new() -> (r: Model)
        ensures
            r@ == (ModelValue { nodes: Seq::empty(), outputs: Seq::empty() }),
            r@.consistent(),
    {
        let r = Model { nodes: Vec::new(), outputs: Vec::new() };
        proof {
            assert(r@.nodes =~= Seq::empty());
            assert(r@.ranked_by(Seq::empty()));
        }
        r
    }

    /// The nodes, in the order in which they were added.
    pub fn nodes(&self) -> (r: &Vec<Node>)
        ensures
            r.deep_view() == self@.nodes,
    {
        &self.nodes
    }

    /// The outlets that are the outputs of the whole graph.
    pub fn outputs(&self) -> (r: &Vec<OutletId>)
        ensures
            r@ == self@.outputs,
    {
        &self.outputs
    }

    /// The sources of the inlets of node `node`, in slot order. Fails with
    /// `DanglingEdge` when there is no such node.
    pub fn node_inputs(&self, node: usize) -> (r: TractResult<&Vec<Option<OutletId>>>)
        ensures
            match r {
                Ok(inputs) => node < self@.nodes.len() && inputs@ == self@.nodes[node as int].inputs,
                Err(e) => e == TractError::DanglingEdge && node >= self@.nodes.len(),
            },
    {
        if node < self.nodes.len() {
            Ok(&self.nodes[node].inputs)
        } else {
            Err(TractError::DanglingEdge)
        }
    }

    /// The number of inlets of node `node`.
    pub fn input_count(&self, node: usize) -> (r: usize)
        requires
            node < self@.nodes.len(),
        ensures
            r == self@.nodes[node as int].inputs.len(),
    {
        self.nodes[node].inputs.len()
    }

    /// The source of inlet `slot` of node `node`, if the inlet is bound.
    pub fn input(&self, node: usize, slot: usize) -> (r: Option<OutletId>)
        requires
            self@.has_inlet(node as int, slot as int),
        ensures
            r == self@.source(node as int, slot as int),
    {
        self.nodes[node].inputs[slot]
    }

    /// The number of outlets of node `node`.
    pub fn output_count(&self, node: usize) -> (r: usize)
        requires
            node < self@.nodes.len(),
        ensures
            r == self@.nodes[node as int].outputs.len(),
    {
        self.nodes[node].outputs.len()
    }

    /// The operator of node `node`.
    pub fn op(&self, node: usize) -> (r: &Operator)
        requires
            node < self@.nodes.len(),
        ensures
            r@ == self@.nodes[node as int].op,
    {
        &self.nodes[node].op
    }

    /// Whether node `node` produces a constant.
    pub fn is_const_node(&self, node: usize) -> (r: bool)
        requires
            node < self@.nodes.len(),
        ensures
            r == (self@.nodes[node as int].op is Const),
    {
        self.nodes[node].op.is_const()
    }

    /// Adds a node without inlets and with one outlet, of which nothing is
    /// known yet, and returns its position.
    pub fn add_node(&mut self, name: String, op: Operator) -> (id: usize)
        requires
            old(self)@.wf(),
        ensures
            id == old(self)@.nodes.len(),
            final(self)@ == old(self)@.with_node(name@, op@),
            final(self)@.wf(),
            old(self)@.consistent() ==> final(self)@.consistent(),
    {
        let id = self.nodes.len();
        let mut outputs: Vec<TensorFact> = Vec::new();
        outputs.push(TensorFact::default());
        let node = Node { id, name, op, inputs: Vec::new(), outputs };
        proof {
            assert(node@.outputs =~= seq![TensorFactValue::any()]);
            assert(node@.inputs =~= Seq::empty());
        }
        self.nodes.push(node);
        proof {
            let g = old(self)@;
            let h = g.with_node(name@, op@);
            assert(self@.nodes =~= h.nodes);
            assert forall|n: int, i: int| #[trigger] h.has_inlet(n, i) implies (h.source(n, i) matches Some(
                o,
            ) ==> h.has_outlet(o)) by {
                assert(g.has_inlet(n, i));
            }
            assert forall|k: int| 0 <= k < h.outputs.len() implies h.has_outlet(
                #[trigger] h.outputs[k],
            ) by {
                assert(g.has_outlet(g.outputs[k]));
            }
            if g.consistent() {
                let rank = choose|rank: Seq<nat>| g.ranked_by(rank);
                lemma_with_node_ranked(g, rank, name@, op@);
                assert forall|n: int, i: int| #[trigger] h.has_inlet(n, i) implies h.source(n, i) is Some by {
                    assert(g.has_inlet(n, i));
                }
            }
        }
        id
    }

    /// Adds a node that produces the constant `value`, and returns its
    /// position.
    pub fn add_const(&mut self, name: String, value: Tensor) -> (id: usize)
        requires
            old(self)@.wf(),
        ensures
            id == old(self)@.nodes.len(),
            final(self)@ == old(self)@.with_node(name@, OperatorValue::Const(value@)),
            final(self)@.wf(),
            old(self)@.consistent() ==> final(self)@.consistent(),
    {
        self.add_node(name, Operator::Const(Const::for_tensor(value)))
    }

    /// The fact on an outlet. Fails with `DanglingEdge` when the graph has
    /// no such outlet.
    pub fn fact(&self, outlet: OutletId) -> (r: TractResult<&TensorFact>)
        ensures
            match r {
                Ok(f) => self@.has_outlet(outlet) && f@ == self@.fact(outlet),
                Err(e) => e == TractError::DanglingEdge && !self@.has_outlet(outlet),
            },
    {
        if outlet.node < self.nodes.len() && outlet.slot < self.nodes[outlet.node].outputs.len() {
            Ok(&self.nodes[outlet.node].outputs[outlet.slot])
        } else {
            Err(TractError::DanglingEdge)
        }
    }

    /// Replaces the fact on an outlet. Fails with `DanglingEdge`, and leaves
    /// the graph as it is, when the graph has no such outlet.
    pub fn set_fact(&mut self, outlet: OutletId, fact: TensorFact) -> (r: TractResult<()>)
        requires
            old(self)@.wf(),
        ensures
            final(self)@.wf(),
            match r {
                Ok(_) => old(self)@.has_outlet(outlet) && final(self)@ == old(self)@.with_fact(
                    outlet,
                    fact@,
                ),
                Err(e) => e == TractError::DanglingEdge && !old(self)@.has_outlet(outlet)
                    && final(self)@ == old(self)@,
            },
            old(self)@.consistent() ==> final(self)@.consistent(),
    {
        if outlet.node < self.nodes.len() && outlet.slot < self.nodes[outlet.node].outputs.len() {
            self.nodes[outlet.node].outputs[outlet.slot] = fact;
            proof {
                let g = old(self)@;
                let h = g.with_fact(outlet, fact@);
                assert(self@.nodes[outlet.node as int].outputs =~= h.nodes[outlet.node as int].outputs);
                assert(self@.nodes =~= h.nodes);
                lemma_same_edges(g, h);
            }
            Ok(())
        } else {
            Err(TractError::DanglingEdge)
        }
    }

    /// Adds one more outlet, of which nothing is known yet, to a node, and
    /// returns its slot. Fails with `DanglingEdge`, and leaves the graph as
    /// it is, when there is no such node.
    pub fn add_outlet(&mut self, node: usize) -> (r: TractResult<usize>)
        requires
            old(self)@.wf(),
        ensures
            final(self)@.wf(),
            match r {
                Ok(slot) => {
                    let before = old(self)@.nodes[node as int];
                    &&& node < old(self)@.nodes.len()
                    &&& slot == before.outputs.len()
                    &&& final(self)@ == (ModelValue {
                        nodes: old(self)@.nodes.update(
                            node as int,
                            NodeValue {
                                outputs: before.outputs.push(TensorFactValue::any()),
                                ..before
                            },
                        ),
                        outputs: old(self)@.outputs,
                    })
                },
                Err(e) => e == TractError::DanglingEdge && node >= old(self)@.nodes.len()
                    && final(self)@ == old(self)@,
            },
            old(self)@.consistent() ==> final(self)@.consistent(),
    {
        if node >= self.nodes.len() {
            return Err(TractError::DanglingEdge);
        }
        let slot = self.nodes[node].outputs.len();
        self.nodes[node].outputs.push(TensorFact::default());
        proof {
            let g = old(self)@;
            let before = g.nodes[node as int];
            let h = ModelValue {
                nodes: g.nodes.update(
                    node as int,
                    NodeValue { outputs: before.outputs.push(TensorFactValue::any()), ..before },
                ),
                outputs: g.outputs,
            };
            assert(self@.nodes[node as int].outputs =~= h.nodes[node as int].outputs);
            assert(self@.nodes =~= h.nodes);
            lemma_same_edges(g, h);
        }
        Ok(slot)
    }

    /// Declares which outlets are the outputs of the whole graph. Fails with
    /// `DanglingEdge`, and leaves the graph as it is, when the graph lacks
    /// one of them.
    pub fn set_outputs(&mut self, outlets: Vec<OutletId>) -> (r: TractResult<()>)
        requires
            old(self)@.wf(),
        ensures
            final(self)@.wf(),
            match r {
                Ok(_) => final(self)@ == (ModelValue { outputs: outlets@, ..old(self)@ }) && forall|
                    k: int,
                |
                    0 <= k < outlets@.len() ==> old(self)@.has_outlet(#[trigger] outlets@[k]),
                Err(e) => e == TractError::DanglingEdge && final(self)@ == old(self)@ && exists|
                    k: int,
                |
                    0 <= k < outlets@.len() && !old(self)@.has_outlet(#[trigger] outlets@[k]),
            },
            old(self)@.consistent() ==> final(self)@.consistent(),
    {
        let mut k: usize = 0;
        while k < outlets.len()
            invariant
                k <= outlets.len(),
                self@ == old(self)@,
                self@.wf(),
                forall|j: int| 0 <= j < k ==> self@.has_outlet(#[trigger] outlets@[j]),
            decreases outlets.len() - k,
        {
            let o = outlets[k];
            if !(o.node < self.nodes.len() && o.slot < self.nodes[o.node].outputs.len()) {
                return Err(TractError::DanglingEdge);
            }
            k += 1;
        }
        self.outputs = outlets;
        proof {
            let g = old(self)@;
            let h = self@;
            assert forall|n: int, i: int| #[trigger] h.has_inlet(n, i) implies (h.source(n, i) matches Some(
                o,
            ) ==> h.has_outlet(o)) by {
                assert(g.has_inlet(n, i));
            }
            if g.consistent() {
                let rank = choose|rank: Seq<nat>| g.ranked_by(rank);
                assert forall|n: int, i: int| #[trigger] h.has_inlet(n, i) implies (h.source(n, i) is Some
                    && (h.source(n, i) matches Some(o) ==> rank[o.node as int] < rank[n])) by {
                    assert(g.has_inlet(n, i));
                }
                assert(h.ranked_by(rank));
            }
        }
        Ok(())
    }

    /// Adds the edge from `outlet` to `inlet`. The graph must have the outlet
    /// and the node of the inlet, and the inlet must be the next one of its
    /// node or an existing one (`DanglingEdge`) that has no source
    /// (`DuplicateInlet`). On failure the graph stays as it is.
    pub fn add_edge(&mut self, outlet: OutletId, inlet: InletId) -> (r: TractResult<()>)
        requires
            old(self)@.wf(),
        ensures
            final(self)@.wf(),
            match old(self)@.with_edge(outlet, inlet) {
                Ok(g) => r is Ok && final(self)@ == g,
                Err(kind) => r matches Err(e) && e == kind && final(self)@ == old(self)@,
            },
    {
        if !(outlet.node < self.nodes.len() && outlet.slot < self.nodes[outlet.node].outputs.len())
            || inlet.node >= self.nodes.len() {
            return Err(TractError::DanglingEdge);
        }
        let known = self.nodes[inlet.node].inputs.len();
        if inlet.slot > known {
            return Err(TractError::DanglingEdge);
        }
        if inlet.slot == known {
            self.nodes[inlet.node].inputs.push(Some(outlet));
        } else {
            match self.nodes[inlet.node].inputs[inlet.slot] {
                Some(_) => {
                    return Err(TractError::DuplicateInlet);
                },
                None => {
                    self.nodes[inlet.node].inputs[inlet.slot] = Some(outlet);
                },
            }
        }
        proof {
            let g = old(self)@;
            let h = g.with_edge(outlet, inlet).unwrap();
            assert(self@.nodes =~= h.nodes);
            assert forall|i: int| 0 <= i < h.nodes[inlet.node as int].inputs.len() implies ((
            #[trigger] h.nodes[inlet.node as int].inputs[i]) matches Some(o) ==> g.has_outlet(o)) by {
                if i != inlet.slot {
                    assert(g.has_inlet(inlet.node as int, i));
                }
            }
            lemma_with_inputs_wf(g, inlet.node as int, h.nodes[inlet.node as int].inputs);
        }
        Ok(())
    }

    /// Discards the edge that ends in `inlet`, if there is one, and returns
    /// its source. Fails with `DanglingEdge`, and leaves the graph as it is,
    /// when the graph has no such inlet.
    pub fn remove_edge(&mut self, inlet: InletId) -> (r: TractResult<Option<OutletId>>)
        requires
            old(self)@.wf(),
        ensures
            final(self)@.wf(),
            match r {
                Ok(source) => {
                    &&& old(self)@.has_inlet(inlet.node as int, inlet.slot as int)
                    &&& source == old(self)@.source(inlet.node as int, inlet.slot as int)
                    &&& final(self)@ == old(self)@.with_inputs(
                        inlet.node as int,
                        old(self)@.nodes[inlet.node as int].inputs.update(inlet.slot as int, None),
                    )
                },
                Err(e) => e == TractError::DanglingEdge && !old(self)@.has_inlet(
                    inlet.node as int,
                    inlet.slot as int,
                ) && final(self)@ == old(self)@,
            },
    {
        if inlet.node >= self.nodes.len() || inlet.slot >= self.nodes[inlet.node].inputs.len() {
            return Err(TractError::DanglingEdge);
        }
        let source = self.nodes[inlet.node].inputs[inlet.slot];
        self.nodes[inlet.node].inputs[inlet.slot] = None;
        proof {
            let g = old(self)@;
            let inputs = g.nodes[inlet.node as int].inputs.update(inlet.slot as int, None);
            let h = g.with_inputs(inlet.node as int, inputs);
            assert(self@.nodes =~= h.nodes);
            assert(g.has_inlet(inlet.node as int, inlet.slot as int));
            assert forall|i: int| 0 <= i < inputs.len() implies ((#[trigger] inputs[i]) matches Some(
                o,
            ) ==> g.has_outlet(o)) by {
                if i != inlet.slot {
                    assert(g.has_inlet(inlet.node as int, i));
                }
            }
            lemma_with_inputs_wf(g, inlet.node as int, inputs);
        }
        Ok(source)
    }

    /// Replaces the operator of node `node` by `op`, which takes the inputs
    /// of the old operator that `rewired` selects. Fails with
    /// `DanglingEdge`, and leaves the graph as it is, when there is no such
    /// node or it lacks one of those inputs.
    pub fn replace_op(&mut self, node: usize, op: Operator, rewired: &Vec<usize>) -> (r: TractResult<()>)
        requires
            old(self)@.wf(),
        ensures
            final(self)@.wf(),
            match r {
                Ok(_) => old(self)@.can_rewire(node as int, rewired@) && final(self)@ == old(
                    self,
                )@.with_op(node as int, op@, rewired@),
                Err(e) => e == TractError::DanglingEdge && !old(self)@.can_rewire(
                    node as int,
                    rewired@,
                ) && final(self)@ == old(self)@,
            },
            old(self)@.consistent() ==> final(self)@.consistent(),
    {
        if node >= self.nodes.len() {
            return Err(TractError::DanglingEdge);
        }
        let ghost g = self@;
        let mut inputs: Vec<Option<OutletId>> = Vec::new();
        let mut j: usize = 0;
        while j < rewired.len()
            invariant
                j <= rewired.len(),
                self@ == g,
                g.wf(),
                node < g.nodes.len(),
                inputs@.len() == j,
                forall|k: int| 0 <= k < j ==> (#[trigger] rewired@[k]) < g.nodes[node as int].inputs.len(),
                forall|k: int|
                    0 <= k < j ==> inputs@[k] == g.nodes[node as int].inputs[rewired@[k] as int],
            decreases rewired.len() - j,
        {
            let from = rewired[j];
            if from >= self.nodes[node].inputs.len() {
                return Err(TractError::DanglingEdge);
            }
            inputs.push(self.nodes[node].inputs[from]);
            j += 1;
        }
        self.nodes[node].op = op;
        self.nodes[node].inputs = inputs;
        proof {
            let h = g.with_op(node as int, op@, rewired@);
            assert(self@.nodes[node as int].inputs =~= h.nodes[node as int].inputs);
            assert(self@.nodes =~= h.nodes);
            lemma_with_op(g, node as int, op@, rewired@);
        }
        Ok(())
    }

    /// Whether every source of node `n` is in `placed`.
    fn sources_placed(&self, n: usize, placed: &Vec<bool>) -> (r: bool)
        requires
            self@.wf(),
            self@.all_bound(),
            n < self@.nodes.len(),
            placed@.len() == self@.nodes.len(),
        ensures
            r == (forall|i: int| #[trigger]
                self@.has_inlet(n as int, i) ==> !self@.blocked_at(placed@, n as int, i)),
    {
        let inputs = &self.nodes[n].inputs;
        let mut i: usize = 0;
        while i < inputs.len()
            invariant
                i <= inputs.len(),
                n < self@.nodes.len(),
                inputs@ == self@.nodes[n as int].inputs,
                placed@.len() == self@.nodes.len(),
                self@.wf(),
                forall|j: int|
                    0 <= j < i ==> !(#[trigger] self@.blocked_at(placed@, n as int, j)),
            decreases inputs.len() - i,
        {
            proof {
                assert(self@.has_inlet(n as int, i as int));
            }
            match inputs[i] {
                Some(o) => {
                    if !placed[o.node] {
                        assert(self@.blocked_at(placed@, n as int, i as int));
                        return false;
                    }
                },
                None => {},
            }
            i += 1;
        }
        true
    }

    /// Checks that every inlet has a source and that the graph has no
    /// cycle. Fails with `DanglingEdge` when an inlet has no source, else
    /// with `CyclicGraph` when there is a cycle.
    pub fn check_edges(&self) -> (r: TractResult<()>)
        requires
            self@.wf(),
        ensures
            match r {
                Ok(_) => self@.consistent(),
                Err(e) => if !self@.all_bound() {
                    e == TractError::DanglingEdge
                } else {
                    e == TractError::CyclicGraph && !self@.acyclic()
                },
            },
    {
        let count = self.nodes.len();
        let mut n: usize = 0;
        while n < count
            invariant
                n <= count,
                count == self@.nodes.len(),
                forall|m: int, i: int|
                    0 <= m < n && #[trigger] self@.has_inlet(m, i) ==> self@.source(m, i) is Some,
            decreases count - n,
        {
            let inputs = &self.nodes[n].inputs;
            let mut i: usize = 0;
            while i < inputs.len()
                invariant
                    i <= inputs.len(),
                    n < count,
                    count == self@.nodes.len(),
                    inputs@ == self@.nodes[n as int].inputs,
                    forall|j: int| 0 <= j < i ==> (#[trigger] inputs@[j]) is Some,
                decreases inputs.len() - i,
            {
                if inputs[i].is_none() {
                    assert(self@.has_inlet(n as int, i as int));
                    return Err(TractError::DanglingEdge);
                }
                i += 1;
            }
            n += 1;
        }
        assert(self@.all_bound());
        let mut placed: Vec<bool> = Vec::new();
        let mut k: usize = 0;
        while k < count
            invariant
                k <= count,
                placed@.len() == k,
                forall|j: int| 0 <= j < k ==> !placed@[j],
            decreases count - k,
        {
            placed.push(false);
            k += 1;
        }
        let ghost mut rank: Seq<nat> = Seq::new(count as nat, |j: int| 0nat);
        let ghost mut done: Set<int> = Set::empty();
        let mut progress = true;
        while progress
            invariant
                count == self@.nodes.len(),
                self@.wf(),
                self@.all_bound(),
                placed@.len() == count,
                rank.len() == count,
                done.finite(),
                done.subset_of(set_int_range(0, count as int)),
                forall|j: int| 0 <= j < count ==> (placed@[j] <==> done.contains(j)),
                forall|j: int| 0 <= j < count && placed@[j] ==> rank[j] < done.len(),
                forall|m: int, i: int|
                    #[trigger] self@.has_inlet(m, i) && placed@[m] ==> (self@.source(m, i) matches Some(
                        o,
                    ) && placed@[o.node as int] && rank[o.node as int] < rank[m]),
                !progress ==> self@.all_blocked(placed@),
            decreases
                    count - done.len() + (if progress {
                        1int
                    } else {
                        0int
                    }),
        {
            proof {
                lemma_int_range(0, count as int);
                lemma_len_subset(done, set_int_range(0, count as int));
            }
            progress = false;
            let ghost before = done;
            let mut m: usize = 0;
            while m < count
                invariant
                    m <= count,
                    count == self@.nodes.len(),
                    self@.wf(),
                    self@.all_bound(),
                    placed@.len() == count,
                    rank.len() == count,
                    done.finite(),
                    done.subset_of(set_int_range(0, count as int)),
                    before.subset_of(done),
                    before.finite(),
                    progress ==> before.len() < done.len(),
                    !progress ==> before == done,
                    forall|j: int| 0 <= j < count ==> (placed@[j] <==> done.contains(j)),
                    forall|j: int| 0 <= j < count && placed@[j] ==> rank[j] < done.len(),
                    forall|q: int, i: int|
                        #[trigger] self@.has_inlet(q, i) && placed@[q] ==> (self@.source(q, i) matches Some(
                            o,
                        ) && placed@[o.node as int] && rank[o.node as int] < rank[q]),
                    !progress ==> forall|q: int|
                        0 <= q < m && !placed@[q] ==> exists|i: int| #[trigger]
                            self@.blocked_at(placed@, q, i),
                decreases count - m,
            {
                if !placed[m] {
                    if self.sources_placed(m, &placed) {
                        proof {
                            assert forall|i: int| #[trigger] self@.has_inlet(m as int, i) implies (
                            self@.source(m as int, i) matches Some(o) && placed@[o.node as int]
                                && rank[o.node as int] < done.len()) by {
                                assert(!self@.blocked_at(placed@, m as int, i));
                            }
                            vstd::set::axiom_set_insert_len(done, m as int);
                            vstd::set::axiom_set_insert_finite(done, m as int);
                            rank = rank.update(m as int, done.len());
                            done = done.insert(m as int);
                        }
                        placed[m] = true;
                        progress = true;
                    } else {
                        proof {
                            let i = choose|i: int| #[trigger]
                                self@.has_inlet(m as int, i) && self@.blocked_at(placed@, m as int, i);
                            assert(self@.blocked_at(placed@, m as int, i));
                        }
                    }
                }
                m += 1;
            }
            proof {
                lemma_len_subset(done, set_int_range(0, count as int));
            }
        }
        match first_false(&placed) {
            Some(q) => {
                proof {
                    if self@.acyclic() {
                        let witness = choose|r: Seq<nat>| self@.ranked_by(r);
                        lemma_blocked_not_ranked(self@, placed@, witness, q as int);
                    }
                }
                return Err(TractError::CyclicGraph);
            },
            None => {},
        }
        proof {
            assert(self@.ranked_by(rank));
        }
        Ok(())
    }
}

/// Replacing an operator by one that takes some of its inputs keeps the
/// graph well formed and consistent.
pub proof fn lemma_with_op(g: ModelValue, n: int, op: OperatorValue, rewired: Seq<usize>)
    requires
        g.wf(),
        g.can_rewire(n, rewired),
    ensures
        g.with_op(n, op, rewired).wf(),
        g.all_bound() ==> g.with_op(n, op, rewired).all_bound(),
        forall|rank: Seq<nat>| g.ranked_by(rank) ==> g.with_op(n, op, rewired).ranked_by(rank),
        g.consistent() ==> g.with_op(n, op, rewired).consistent(),
{
    let h = g.with_op(n, op, rewired);
    assert forall|m: int, i: int| #[trigger] h.has_inlet(m, i) implies (h.source(m, i) matches Some(
        o,
    ) ==> h.has_outlet(o)) by {
        if m == n {
            assert(g.has_inlet(n, rewired[i] as int));
        } else {
            assert(g.has_inlet(m, i));
        }
    }
    assert forall|k: int| 0 <= k < h.outputs.len() implies h.has_outlet(#[trigger] h.outputs[k]) by {
        assert(g.has_outlet(g.outputs[k]));
    }
    assert forall|m: int| 0 <= m < h.nodes.len() implies (#[trigger] h.nodes[m]).id == m by {
        assert(g.nodes[m].id == m);
    }
    if g.all_bound() {
        assert forall|m: int, i: int| #[trigger] h.has_inlet(m, i) implies h.source(m, i) is Some by {
            if m == n {
                assert(g.has_inlet(n, rewired[i] as int));
            } else {
                assert(g.has_inlet(m, i));
            }
        }
    }
    assert forall|rank: Seq<nat>| g.ranked_by(rank) implies h.ranked_by(rank) by {
        assert forall|m: int, i: int| #[trigger] h.has_inlet(m, i) implies (h.source(m, i) matches Some(
            o,
        ) ==> rank[o.node as int] < rank[m]) by {
            if m == n {
                assert(g.has_inlet(n, rewired[i] as int));
            } else {
                assert(g.has_inlet(m, i));
            }
        }
    }
    if g.consistent() {
        let rank = choose|rank: Seq<nat>| g.ranked_by(rank);
        assert(h.ranked_by(rank));
    }
}

/// Two graphs with the same edges and as many outlets on every node are
/// well formed, bound and ranked alike.
pub proof fn lemma_same_edges(g: ModelValue, h: ModelValue)
    requires
        g.wf(),
        h.nodes.len() == g.nodes.len(),
        h.outputs == g.outputs,
        forall|n: int|
            0 <= n < g.nodes.len() ==> (#[trigger] h.nodes[n]).id == g.nodes[n].id && h.nodes[n].inputs
                == g.nodes[n].inputs && h.nodes[n].outputs.len() >= g.nodes[n].outputs.len(),
    ensures
        h.wf(),
        g.all_bound() ==> h.all_bound(),
        forall|rank: Seq<nat>| g.ranked_by(rank) ==> h.ranked_by(rank),
        g.consistent() ==> h.consistent(),
{
    assert forall|n: int, i: int| #[trigger] h.has_inlet(n, i) implies (h.source(n, i) matches Some(
        o,
    ) ==> h.has_outlet(o)) by {
        assert(h.nodes[n].inputs == g.nodes[n].inputs);
        assert(g.has_inlet(n, i));
        if let Some(o) = g.source(n, i) {
            assert(h.nodes[o.node as int].outputs.len() >= g.nodes[o.node as int].outputs.len());
        }
    }
    assert forall|k: int| 0 <= k < h.outputs.len() implies h.has_outlet(#[trigger] h.outputs[k]) by {
        let o = g.outputs[k];
        assert(g.has_outlet(o));
        assert(h.nodes[o.node as int].outputs.len() >= g.nodes[o.node as int].outputs.len());
    }
    assert forall|n: int| 0 <= n < h.nodes.len() implies (#[trigger] h.nodes[n]).id == n by {
        assert(g.nodes[n].id == n);
    }
    if g.all_bound() {
        assert forall|n: int, i: int| #[trigger] h.has_inlet(n, i) implies h.source(n, i) is Some by {
            assert(h.nodes[n].inputs == g.nodes[n].inputs);
            assert(g.has_inlet(n, i));
        }
    }
    assert forall|rank: Seq<nat>| g.ranked_by(rank) implies h.ranked_by(rank) by {
        assert forall|n: int, i: int| #[trigger] h.has_inlet(n, i) implies (h.source(n, i) matches Some(
            o,
        ) ==> rank[o.node as int] < rank[n]) by {
            assert(h.nodes[n].inputs == g.nodes[n].inputs);
            assert(g.has_inlet(n, i));
        }
    }
    if g.consistent() {
        let rank = choose|rank: Seq<nat>| g.ranked_by(rank);
        assert(h.ranked_by(rank));
    }
}

/// Replacing the inputs of a node by sources that the graph has keeps the
/// graph well formed.
pub proof fn lemma_with_inputs_wf(g: ModelValue, n: int, inputs: Seq<Option<OutletId>>)
    requires
        g.wf(),
        0 <= n < g.nodes.len(),
        forall|i: int| 0 <= i < inputs.len() ==> ((#[trigger] inputs[i]) matches Some(o) ==> g.has_outlet(o)),
    ensures
        g.with_inputs(n, inputs).wf(),
{
    let h = g.with_inputs(n, inputs);
    assert forall|m: int, i: int| #[trigger] h.has_inlet(m, i) implies (h.source(m, i) matches Some(
        o,
    ) ==> h.has_outlet(o)) by {
        if m == n {
            if let Some(o) = inputs[i] {
                assert(g.has_outlet(o));
            }
        } else {
            assert(g.has_inlet(m, i));
        }
    }
    assert forall|k: int| 0 <= k < h.outputs.len() implies h.has_outlet(#[trigger] h.outputs[k]) by {
        assert(g.has_outlet(g.outputs[k]));
    }
    assert forall|m: int| 0 <= m < h.nodes.len() implies (#[trigger] h.nodes[m]).id == m by {
        assert(g.nodes[m].id == m);
    }
}

} // verus!
