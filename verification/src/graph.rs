//! The evaluation graph: a directed multigraph whose nodes are gate
//! identifiers and whose edges are wire identifiers, and the compiler
//! that turns it into a total evaluation order.
//!
//! The graph itself is petgraph's adjacency map, held behind trusted
//! wrappers whose contracts speak of two named projections: the set of
//! nodes and the map of labeled edges. The strongly-connected-component
//! analysis is petgraph's Kosaraju pass; everything layered on top of it
//! — reversal, flattening, the shape of the final order — is verified.
use vstd::prelude::*;
use petgraph::graphmap::GraphMap;
use petgraph::Directed;
use std::collections::hash_map::RandomState;

verus! {

#[verifier::external_type_specification]
#[verifier::external_body]
#[verifier::reject_recursive_types(N)]
#[verifier::reject_recursive_types(E)]
#[verifier::reject_recursive_types(Ty)]
#[verifier::reject_recursive_types(S)]
pub struct ExGraphMap<N, E, Ty, S>(GraphMap<N, E, Ty, S>) where S: std::hash::BuildHasher;

#[verifier::external_type_specification]
#[verifier::external_body]
pub struct ExDirected(Directed);

/// The adjacency structure used for gate graphs: directed, nodes are
/// gate identifiers, edge labels are wire identifiers.
pub type GateGraph = GraphMap<u64, u64, Directed, RandomState>;

/// The set of gate identifiers a graph holds.
pub uninterp spec fn graph_nodes(g: GateGraph) -> Set<u64>;

/// The labeled edges a graph holds: each directed (from, to) pair maps to
/// the identifier of the wire that was stored for it last.
pub uninterp spec fn graph_edges(g: GateGraph) -> Map<(u64, u64), u64>;

/// Relies on `GraphMap::new`; what the fresh graph holds is pinned down
/// by a [`graph_clear`] call right after.
#[verifier::external_body]
fn graph_new() -> GateGraph {
    GraphMap::new()
}

/// Relies on `GraphMap::clear`: removes all nodes and edges.
#[verifier::external_body]
fn graph_clear(g: &mut GateGraph)
    ensures
        forall|n: u64| !graph_nodes(*final(g)).contains(n),
        forall|e: (u64, u64)| !graph_edges(*final(g)).contains_key(e),
{
    g.clear();
}

/// Relies on `GraphMap::add_node`: inserts the node and leaves the edges
/// alone.
#[verifier::external_body]
fn graph_add_node(g: &mut GateGraph, n: u64)
    ensures
        graph_nodes(*final(g)) == graph_nodes(*old(g)).insert(n),
        graph_edges(*final(g)) == graph_edges(*old(g)),
{
    g.add_node(n);
}

/// Relies on `GraphMap::add_edge`: stores the labeled edge, inserting
/// both endpoints as nodes if they are missing, and returns the label the
/// edge carried before, if any.
#[verifier::external_body]
fn graph_add_edge(g: &mut GateGraph, a: u64, b: u64, w: u64) -> (r: Option<u64>)
    ensures
        graph_nodes(*final(g)) == graph_nodes(*old(g)).insert(a).insert(b),
        graph_edges(*final(g)) == graph_edges(*old(g)).insert((a, b), w),
        r == if graph_edges(*old(g)).contains_key((a, b)) {
            Some(graph_edges(*old(g))[(a, b)])
        } else {
            None::<u64>
        },
{
    g.add_edge(a, b, w)
}

/// Relies on `GraphMap::remove_node`: removes the node and every edge
/// incident to it, and tells whether the node was present.
#[verifier::external_body]
fn graph_remove_node(g: &mut GateGraph, n: u64) -> (r: bool)
    ensures
        graph_nodes(*final(g)) == graph_nodes(*old(g)).remove(n),
        forall|e: (u64, u64)|
            graph_edges(*old(g)).contains_key(e) && e.0 != n && e.1 != n ==> #[trigger] graph_edges(
                *final(g),
            ).contains_key(e) && graph_edges(*final(g))[e] == graph_edges(*old(g))[e],
        forall|e: (u64, u64)| #[trigger]
            graph_edges(*final(g)).contains_key(e) ==> graph_edges(*old(g)).contains_key(e) && e.0
                != n && e.1 != n,
        r == graph_nodes(*old(g)).contains(n),
{
    g.remove_node(n)
}

/// Relies on `GraphMap::remove_edge`: removes the directed edge, leaves
/// the nodes alone, and returns the label it carried, if any.
#[verifier::external_body]
fn graph_remove_edge(g: &mut GateGraph, a: u64, b: u64) -> (r: Option<u64>)
    ensures
        graph_nodes(*final(g)) == graph_nodes(*old(g)),
        graph_edges(*final(g)) == graph_edges(*old(g)).remove((a, b)),
        r == if graph_edges(*old(g)).contains_key((a, b)) {
            Some(graph_edges(*old(g))[(a, b)])
        } else {
            None::<u64>
        },
{
    g.remove_edge(a, b)
}

/// Relies on `GraphMap::contains_node`.
#[verifier::external_body]
fn graph_contains_node(g: &GateGraph, n: u64) -> (r: bool)
    ensures
        r == graph_nodes(*g).contains(n),
{
    g.contains_node(n)
}

/// Relies on `GraphMap::edges_directed` with the incoming direction: it
/// yields exactly the stored edges whose target is `n`, each as
/// (source, target, label), each source once.
#[verifier::external_body]
fn graph_edges_into(g: &GateGraph, n: u64) -> (r: Vec<(u64, u64, u64)>)
    ensures
        forall|i: int|
            0 <= i < r@.len() ==> #[trigger] r@[i].1 == n && graph_edges(*g).contains_key(
                (r@[i].0, n),
            ) && graph_edges(*g)[(r@[i].0, n)] == r@[i].2,
        forall|a: u64| #[trigger]
            graph_edges(*g).contains_key((a, n)) ==> exists|i: int|
                0 <= i < r@.len() && r@[i] == (a, n, graph_edges(*g)[(a, n)]),
        forall|i: int, j: int| 0 <= i < j < r@.len() ==> r@[i].0 != r@[j].0,
{
    g.edges_directed(n, petgraph::Direction::Incoming).map(|(a, b, w)| (a, b, *w)).collect()
}

/// Relies on `GraphMap::edges_directed` with the outgoing direction: it
/// yields exactly the stored edges whose source is `n`, each as
/// (source, target, label), each target once.
#[verifier::external_body]
fn graph_edges_out_of(g: &GateGraph, n: u64) -> (r: Vec<(u64, u64, u64)>)
    ensures
        forall|i: int|
            0 <= i < r@.len() ==> #[trigger] r@[i].0 == n && graph_edges(*g).contains_key(
                (n, r@[i].1),
            ) && graph_edges(*g)[(n, r@[i].1)] == r@[i].2,
        forall|b: u64| #[trigger]
            graph_edges(*g).contains_key((n, b)) ==> exists|i: int|
                0 <= i < r@.len() && r@[i] == (n, b, graph_edges(*g)[(n, b)]),
        forall|i: int, j: int| 0 <= i < j < r@.len() ==> r@[i].1 != r@[j].1,
{
    g.edges_directed(n, petgraph::Direction::Outgoing).map(|(a, b, w)| (a, b, *w)).collect()
}

/// Relies on `petgraph::algo::kosaraju_scc`: it partitions the graph's
/// nodes into strongly connected components — every node in exactly one
/// slot — listed in postorder, so every edge whose endpoints sit in
/// different components points from a later component to an earlier one.
#[verifier::external_body]
fn graph_scc(g: &GateGraph) -> (r: Vec<Vec<u64>>)
    ensures
        forall|i: int, x: int|
            0 <= i < r@.len() && 0 <= x < r@[i]@.len() ==> graph_nodes(*g).contains(
                #[trigger] r@[i]@[x],
            ),
        forall|n: u64| #[trigger]
            graph_nodes(*g).contains(n) ==> exists|i: int, x: int|
                0 <= i < r@.len() && 0 <= x < r@[i]@.len() && r@[i]@[x] == n,
        forall|i: int, x: int, j: int, y: int|
            #![trigger r@[i]@[x], r@[j]@[y]]
            0 <= i < r@.len() && 0 <= x < r@[i]@.len() && 0 <= j < r@.len() && 0 <= y < r@[j]@.len()
                && (i != j || x != y) ==> r@[i]@[x] != r@[j]@[y],
        forall|i: int, x: int, j: int, y: int|
            #![trigger graph_edges(*g).contains_key((r@[i]@[x], r@[j]@[y]))]
            0 <= i < r@.len() && 0 <= x < r@[i]@.len() && 0 <= j < r@.len() && 0 <= y < r@[j]@.len()
                && graph_edges(*g).contains_key((r@[i]@[x], r@[j]@[y])) ==> j <= i,
{
    petgraph::algo::kosaraju_scc(g)
}

/// The concatenation of a list of component sequences, in order.
pub open spec fn flatten_order(cs: Seq<Seq<u64>>) -> Seq<u64>
    decreases cs.len(),
{
    if cs.len() == 0 {
        Seq::empty()
    } else {
        flatten_order(cs.drop_last()) + cs.last()
    }
}

/// The logic graph resource determines the order logic gates are
/// evaluated in.
pub struct LogicGraph {
    graph: GateGraph,
    sorted: Vec<u64>,
    components: Vec<Vec<u64>>,
}

impl LogicGraph {
    /// The set of gate identifiers currently in the graph.
    pub closed spec fn nodes(self) -> Set<u64> {
        graph_nodes(self.graph)
    }

    /// The wire edges currently in the graph: each directed gate pair
    /// maps to its wire identifier.
    pub closed spec fn edges(self) -> Map<(u64, u64), u64> {
        graph_edges(self.graph)
    }

    /// The compiled evaluation order.
    pub closed spec fn order(self) -> Seq<u64> {
        self.sorted@
    }

    /// The compiled component groups, dependencies first.
    pub closed spec fn comp_seq(self) -> Seq<Seq<u64>> {
        self.components@.map_values(|c: Vec<u64>| c@)
    }

    /// The compiled order is current for the graph: the component groups
    /// partition the nodes — every node in exactly one slot — every edge
    /// points forward or stays inside its group, and the flat order is
    /// their concatenation.
    pub open spec fn order_ok(self) -> bool {
        let cs = self.comp_seq();
        &&& forall|i: int, x: int|
            0 <= i < cs.len() && 0 <= x < cs[i].len() ==> self.nodes().contains(#[trigger] cs[i][x])
        &&& forall|n: u64| #[trigger]
            self.nodes().contains(n) ==> exists|i: int, x: int|
                0 <= i < cs.len() && 0 <= x < cs[i].len() && cs[i][x] == n
        &&& forall|i: int, x: int, j: int, y: int|
            #![trigger cs[i][x], cs[j][y]]
            0 <= i < cs.len() && 0 <= x < cs[i].len() && 0 <= j < cs.len() && 0 <= y < cs[j].len()
                && (i != j || x != y) ==> cs[i][x] != cs[j][y]
        &&& forall|i: int, x: int, j: int, y: int|
            #![trigger self.edges().contains_key((cs[i][x], cs[j][y]))]
            0 <= i < cs.len() && 0 <= x < cs[i].len() && 0 <= j < cs.len() && 0 <= y < cs[j].len()
                && self.edges().contains_key((cs[i][x], cs[j][y])) ==> i <= j
        &&& self.order() == flatten_order(cs)
    }

    /// An empty graph with an empty compiled order.
    pub fn new() -> (r: LogicGraph)
        ensures
            r.nodes() == Set::<u64>::empty(),
            r.edges() == Map::<(u64, u64), u64>::empty(),
            r.order() == Seq::<u64>::empty(),
            r.comp_seq() == Seq::<Seq<u64>>::empty(),
    {
        let mut g = graph_new();
        graph_clear(&mut g);
        let r = LogicGraph { graph: g, sorted: Vec::new(), components: Vec::new() };
        proof {
            assert(r.comp_seq() =~= Seq::<Seq<u64>>::empty());
            assert(r.nodes() =~= Set::<u64>::empty());
            assert(r.edges() =~= Map::<(u64, u64), u64>::empty());
        }
        r
    }

    /// Add a gate to the graph. The compiled order is stale until the
    /// next [`Self::compile`].
    pub fn add_gate(&mut self, gate_entity: u64)
        ensures
            final(self).nodes() == old(self).nodes().insert(gate_entity),
            final(self).edges() == old(self).edges(),
            final(self).order() == old(self).order(),
            final(self).comp_seq() == old(self).comp_seq(),
    {
        graph_add_node(&mut self.graph, gate_entity);
    }

    /// Connect two gates with a wire. Both gates are inserted if missing.
    /// The compiled order is stale until the next [`Self::compile`].
    pub fn add_wire(&mut self, from_gate: u64, to_gate: u64, wire_entity: u64)
        ensures
            final(self).nodes() == old(self).nodes().insert(from_gate).insert(to_gate),
            final(self).edges() == old(self).edges().insert((from_gate, to_gate), wire_entity),
            final(self).order() == old(self).order(),
            final(self).comp_seq() == old(self).comp_seq(),
    {
        let _ = graph_add_edge(&mut self.graph, from_gate, to_gate, wire_entity);
    }

    /// Remove a gate from the graph, with every edge incident to it. The
    /// compiled order is stale until the next [`Self::compile`].
    pub fn remove_gate(&mut self, gate_entity: u64)
        ensures
            final(self).nodes() == old(self).nodes().remove(gate_entity),
            forall|e: (u64, u64)| #[trigger]
                final(self).edges().contains_key(e) <==> old(self).edges().contains_key(e) && e.0
                    != gate_entity && e.1 != gate_entity,
            forall|e: (u64, u64)| #[trigger]
                final(self).edges().contains_key(e) ==> final(self).edges()[e] == old(
                    self,
                ).edges()[e],
            final(self).order() == old(self).order(),
            final(self).comp_seq() == old(self).comp_seq(),
    {
        let _ = graph_remove_node(&mut self.graph, gate_entity);
    }

    /// Remove the wire between two gates. The compiled order is stale
    /// until the next [`Self::compile`].
    pub fn remove_wire(&mut self, from_gate: u64, to_gate: u64)
        ensures
            final(self).nodes() == old(self).nodes(),
            final(self).edges() == old(self).edges().remove((from_gate, to_gate)),
            final(self).order() == old(self).order(),
            final(self).comp_seq() == old(self).comp_seq(),
    {
        let _ = graph_remove_edge(&mut self.graph, from_gate, to_gate);
    }

    /// Whether the graph holds a given gate.
    pub fn contains_gate(&self, gate_entity: u64) -> (r: bool)
        ensures
            r == self.nodes().contains(gate_entity),
    {
        graph_contains_node(&self.graph, gate_entity)
    }

    /// All incoming wires of a gate, as (wire, from gate, to gate).
    pub fn incoming_wires(&self, gate: u64) -> (r: Vec<(u64, u64, u64)>)
        ensures
            forall|i: int|
                #![trigger r@[i]]
                0 <= i < r@.len() ==> r@[i].2 == gate && self.edges().contains_key(
                    (r@[i].1, gate),
                ) && self.edges()[(r@[i].1, gate)] == r@[i].0,
            forall|a: u64| #[trigger]
                self.edges().contains_key((a, gate)) ==> exists|i: int|
                    0 <= i < r@.len() && r@[i] == (self.edges()[(a, gate)], a, gate),
            forall|i: int, j: int| 0 <= i < j < r@.len() ==> r@[i].1 != r@[j].1,
    {
        let raw = graph_edges_into(&self.graph, gate);
        let mut r: Vec<(u64, u64, u64)> = Vec::new();
        let mut i: usize = 0;
        while i < raw.len()
            invariant
                0 <= i <= raw@.len(),
                r@.len() == i,
                forall|k: int| 0 <= k < i ==> r@[k] == (raw@[k].2, raw@[k].0, raw@[k].1),
                forall|k: int|
                    0 <= k < raw@.len() ==> #[trigger] raw@[k].1 == gate && graph_edges(
                        self.graph,
                    ).contains_key((raw@[k].0, gate)) && graph_edges(self.graph)[(raw@[k].0, gate)]
                        == raw@[k].2,
                forall|k: int, l: int| 0 <= k < l < raw@.len() ==> raw@[k].0 != raw@[l].0,
            decreases raw@.len() - i,
        {
            let (a, b, w) = raw[i];
            r.push((w, a, b));
            i = i + 1;
        }
        proof {
            assert forall|a: u64| #[trigger]
                self.edges().contains_key((a, gate)) implies exists|k: int|
                0 <= k < r@.len() && r@[k] == (self.edges()[(a, gate)], a, gate) by {
                let k = choose|k: int|
                    0 <= k < raw@.len() && raw@[k] == (a, gate, self.edges()[(a, gate)]);
                assert(r@[k] == (self.edges()[(a, gate)], a, gate));
            }
        }
        r
    }

    /// All outgoing wires of a gate, as (wire, from gate, to gate).
    pub fn outgoing_wires(&self, gate: u64) -> (r: Vec<(u64, u64, u64)>)
        ensures
            forall|i: int|
                #![trigger r@[i]]
                0 <= i < r@.len() ==> r@[i].1 == gate && self.edges().contains_key(
                    (gate, r@[i].2),
                ) && self.edges()[(gate, r@[i].2)] == r@[i].0,
            forall|b: u64| #[trigger]
                self.edges().contains_key((gate, b)) ==> exists|i: int|
                    0 <= i < r@.len() && r@[i] == (self.edges()[(gate, b)], gate, b),
            forall|i: int, j: int| 0 <= i < j < r@.len() ==> r@[i].2 != r@[j].2,
    {
        let raw = graph_edges_out_of(&self.graph, gate);
        let mut r: Vec<(u64, u64, u64)> = Vec::new();
        let mut i: usize = 0;
        while i < raw.len()
            invariant
                0 <= i <= raw@.len(),
                r@.len() == i,
                forall|k: int| 0 <= k < i ==> r@[k] == (raw@[k].2, raw@[k].0, raw@[k].1),
                forall|k: int|
                    0 <= k < raw@.len() ==> #[trigger] raw@[k].0 == gate && graph_edges(
                        self.graph,
                    ).contains_key((gate, raw@[k].1)) && graph_edges(self.graph)[(gate, raw@[k].1)]
                        == raw@[k].2,
                forall|k: int, l: int| 0 <= k < l < raw@.len() ==> raw@[k].1 != raw@[l].1,
            decreases raw@.len() - i,
        {
            let (a, b, w) = raw[i];
            r.push((w, a, b));
            i = i + 1;
        }
        proof {
            assert forall|b: u64| #[trigger]
                self.edges().contains_key((gate, b)) implies exists|k: int|
                0 <= k < r@.len() && r@[k] == (self.edges()[(gate, b)], gate, b) by {
                let k = choose|k: int|
                    0 <= k < raw@.len() && raw@[k] == (gate, b, self.edges()[(gate, b)]);
                assert(r@[k] == (self.edges()[(gate, b)], gate, b));
            }
        }
        r
    }

    /// Recompute the evaluation order from the current nodes and edges:
    /// group the gates into strongly connected components, order the
    /// groups so dependencies come first, and flatten.
    pub fn compile(&mut self)
        ensures
            final(self).nodes() == old(self).nodes(),
            final(self).edges() == old(self).edges(),
            final(self).order_ok(),
    {
        let mut raw = graph_scc(&self.graph);
        let ghost rv = raw@;
        let ghost r0 = rv.map_values(|c: Vec<u64>| c@);
        let ghost rlen = r0.len() as int;
        let mut comps: Vec<Vec<u64>> = Vec::new();
        while raw.len() > 0
            invariant
                comps@.len() + raw@.len() == rlen,
                forall|k: int| 0 <= k < raw@.len() ==> (#[trigger] raw@[k])@ == r0[k],
                forall|k: int| 0 <= k < comps@.len() ==> (#[trigger] comps@[k])@ == r0[rlen - 1
                    - k],
            decreases raw@.len(),
        {
            let ghost n0 = raw@.len() as int;
            let c = raw.pop().unwrap();
            proof {
                assert(c@ == r0[n0 - 1]);
            }
            comps.push(c);
        }
        let mut sorted: Vec<u64> = Vec::new();
        let mut i: usize = 0;
        while i < comps.len()
            invariant
                0 <= i <= comps@.len(),
                sorted@ == flatten_order(comps@.map_values(|c: Vec<u64>| c@).take(i as int)),
            decreases comps@.len() - i,
        {
            let ghost cs = comps@.map_values(|c: Vec<u64>| c@);
            let comp = &comps[i];
            let mut x: usize = 0;
            while x < comp.len()
                invariant
                    0 <= x <= comp@.len(),
                    comp@ == cs[i as int],
                    0 <= i < cs.len(),
                    sorted@ == flatten_order(cs.take(i as int)) + comp@.take(x as int),
                decreases comp@.len() - x,
            {
                let v = comp[x];
                sorted.push(v);
                proof {
                    assert(comp@.take(x + 1) =~= comp@.take(x as int).push(comp@[x as int]));
                    assert(sorted@ == flatten_order(cs.take(i as int)) + comp@.take(x + 1));
                }
                x = x + 1;
            }
            proof {
                assert(cs.take(i + 1).drop_last() =~= cs.take(i as int));
                assert(cs.take(i + 1).last() == cs[i as int]);
                assert(comp@.take(comp@.len() as int) =~= comp@);
                assert(sorted@ == flatten_order(cs.take(i + 1)));
            }
            i = i + 1;
        }
        proof {
            let cs = comps@.map_values(|c: Vec<u64>| c@);
            assert(cs.take(cs.len() as int) =~= cs);
        }
        self.sorted = sorted;
        self.components = comps;
        proof {
            let cs = self.comp_seq();
            assert(cs.len() == rlen);
            assert forall|k: int| 0 <= k < rlen implies #[trigger] cs[k] == r0[rlen - 1 - k] by {
                assert(cs[k] == comps@[k]@);
            }
            // membership, uniqueness and edge direction carry over from
            // the component list to its reversal.
            assert forall|i2: int, x: int|
                0 <= i2 < cs.len() && 0 <= x < cs[i2].len() implies self.nodes().contains(
                #[trigger] cs[i2][x],
            ) by {
                assert(r0[rlen - 1 - i2] == rv[rlen - 1 - i2]@);
                assert(cs[i2][x] == r0[rlen - 1 - i2][x]);
            }
            assert forall|n: u64| #[trigger] self.nodes().contains(n) implies exists|i2: int, x: int|
                0 <= i2 < cs.len() && 0 <= x < cs[i2].len() && cs[i2][x] == n by {
                let (i3, x3): (int, int) = choose|i3: int, x3: int|
                    0 <= i3 < rv.len() && 0 <= x3 < rv[i3]@.len() && rv[i3]@[x3] == n;
                assert(r0[i3] == rv[i3]@);
                assert(cs[rlen - 1 - i3][x3] == n);
            }
            assert forall|i2: int, x: int, j2: int, y: int|
                #![trigger cs[i2][x], cs[j2][y]]
                0 <= i2 < cs.len() && 0 <= x < cs[i2].len() && 0 <= j2 < cs.len() && 0 <= y
                    < cs[j2].len() && (i2 != j2 || x != y) implies cs[i2][x] != cs[j2][y] by {
                assert(r0[rlen - 1 - i2] == rv[rlen - 1 - i2]@);
                assert(r0[rlen - 1 - j2] == rv[rlen - 1 - j2]@);
                assert(cs[i2][x] == r0[rlen - 1 - i2][x]);
                assert(cs[j2][y] == r0[rlen - 1 - j2][y]);
            }
            assert forall|i2: int, x: int, j2: int, y: int|
                #![trigger self.edges().contains_key((cs[i2][x], cs[j2][y]))]
                0 <= i2 < cs.len() && 0 <= x < cs[i2].len() && 0 <= j2 < cs.len() && 0 <= y
                    < cs[j2].len() && self.edges().contains_key(
                (cs[i2][x], cs[j2][y]),
            ) implies i2 <= j2 by {
                assert(r0[rlen - 1 - i2] == rv[rlen - 1 - i2]@);
                assert(r0[rlen - 1 - j2] == rv[rlen - 1 - j2]@);
                assert(cs[i2][x] == r0[rlen - 1 - i2][x]);
                assert(cs[j2][y] == r0[rlen - 1 - j2][y]);
            }
        }
    }

    /// The compiled evaluation order, dependencies first.
    pub fn sorted(&self) -> (r: &Vec<u64>)
        ensures
            r@ == self.order(),
    {
        &self.sorted
    }

    /// The compiled component groups, dependencies first; gates that feed
    /// back into each other share a group.
    pub fn component_groups(&self) -> (r: &Vec<Vec<u64>>)
        ensures
            r@.map_values(|c: Vec<u64>| c@) == self.comp_seq(),
    {
        &self.components
    }
}

impl Default for LogicGraph {
    /// An empty graph with an empty compiled order.
    fn default() -> (r: LogicGraph)
        ensures
            r.nodes() == Set::<u64>::empty(),
            r.edges() == Map::<(u64, u64), u64>::empty(),
            r.order() == Seq::<u64>::empty(),
    {
        LogicGraph::new()
    }
}

} // verus!
