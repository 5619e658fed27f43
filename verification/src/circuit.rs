//! The circuit state: gate records with their ordered port fans, the
//! port/wire signal store, the per-output wire sets, and the desync
//! counters — together with the per-tick evaluation pass and the
//! immediate propagation path for externally driven outputs.
use vstd::prelude::*;
use std::collections::HashMap;
use crate::gates::GateKind;
use crate::graph::LogicGraph;
use crate::signal::Signal;

verus! {

broadcast use vstd::std_specs::hash::group_hash_axioms;

/// A directed connection from one gate's output port to another gate's
/// input port, by their identifiers.
#[derive(Clone, Copy, Debug, PartialEq, Eq, Structural)]
pub struct Wire {
    /// The output port the wire leaves.
    pub from: u64,
    /// The input port the wire enters.
    pub to: u64,
}

impl Wire {
    /// Create a new wire from an output port to an input port.
    pub fn new(from: u64, to: u64) -> (r: Wire)
        ensures
            r == (Wire { from, to }),
    {
        Wire { from, to }
    }
}

/// Marks a port as either an input or an output of its gate.
#[derive(Clone, Copy, Debug, PartialEq, Eq, Structural)]
pub enum GateFan {
    Input,
    Output,
}

impl GateFan {
    /// Returns `true` if this fan is an [`Output`].
    ///
    /// [`Output`]: GateFan::Output
    #[must_use]
    pub fn is_output(&self) -> (r: bool)
        ensures
            r == (*self is Output),
    {
        matches!(self, GateFan::Output)
    }

    /// Returns `true` if this fan is an [`Input`].
    ///
    /// [`Input`]: GateFan::Input
    #[must_use]
    pub fn is_input(&self) -> (r: bool)
        ensures
            r == (*self is Input),
    {
        matches!(self, GateFan::Input)
    }
}

/// The ordered input and output port fans of a gate. A slot may be
/// empty; position carries meaning, as a truth-table column.
#[derive(Clone, Debug, PartialEq, Eq)]
pub struct LogicGateFans {
    pub inputs: Vec<Option<u64>>,
    pub outputs: Vec<Option<u64>>,
}

/// The identifiers held by the filled slots of a fan list, in order.
pub open spec fn some_of(fans: Seq<Option<u64>>) -> Seq<u64>
    decreases fans.len(),
{
    if fans.len() == 0 {
        Seq::empty()
    } else {
        let rest = some_of(fans.drop_last());
        match fans.last() {
            Some(p) => rest.push(p),
            None => rest,
        }
    }
}

fn some_of_exec(fans: &Vec<Option<u64>>) -> (r: Vec<u64>)
    ensures
        r@ == some_of(fans@),
{
    let mut r: Vec<u64> = Vec::new();
    let mut i: usize = 0;
    while i < fans.len()
        invariant
            0 <= i <= fans@.len(),
            r@ == some_of(fans@.take(i as int)),
        decreases fans@.len() - i,
    {
        proof {
            assert(fans@.take(i + 1).drop_last() =~= fans@.take(i as int));
            assert(fans@.take(i + 1).last() == fans@[i as int]);
        }
        if let Some(p) = fans[i] {
            r.push(p);
        }
        i = i + 1;
    }
    proof {
        assert(fans@.take(fans@.len() as int) =~= fans@);
    }
    r
}

impl LogicGateFans {
    /// Empty fan lists.
    pub fn new() -> (r: Self)
        ensures
            r.inputs@ == Seq::<Option<u64>>::empty(),
            r.outputs@ == Seq::<Option<u64>>::empty(),
    {
        LogicGateFans { inputs: Vec::new(), outputs: Vec::new() }
    }

    /// Push an input slot to the inputs vector.
    pub fn with_input(self, input: Option<u64>) -> (r: Self)
        ensures
            r.inputs@ == self.inputs@.push(input),
            r.outputs@ == self.outputs@,
    {
        let mut s = self;
        s.inputs.push(input);
        s
    }

    /// Push an output slot to the outputs vector.
    pub fn with_output(self, output: Option<u64>) -> (r: Self)
        ensures
            r.inputs@ == self.inputs@,
            r.outputs@ == self.outputs@.push(output),
    {
        let mut s = self;
        s.outputs.push(output);
        s
    }

    /// Return the number of input slots of this gate.
    pub fn input_len(&self) -> (r: usize)
        ensures
            r == self.inputs@.len(),
    {
        self.inputs.len()
    }

    /// Return the number of output slots of this gate.
    pub fn output_len(&self) -> (r: usize)
        ensures
            r == self.outputs@.len(),
    {
        self.outputs.len()
    }

    /// Resize the input vector in-place so that `len` is equal to
    /// `count`; new slots are empty.
    pub fn resize_inputs(&mut self, count: usize)
        ensures
            final(self).inputs@.len() == count,
            final(self).outputs@ == old(self).outputs@,
            forall|i: int|
                0 <= i < count ==> final(self).inputs@[i] == if i < old(self).inputs@.len() {
                    old(self).inputs@[i]
                } else {
                    None::<u64>
                },
    {
        self.inputs.resize(count, None);
    }

    /// Resize the output vector in-place so that `len` is equal to
    /// `count`; new slots are empty.
    pub fn resize_outputs(&mut self, count: usize)
        ensures
            final(self).outputs@.len() == count,
            final(self).inputs@ == old(self).inputs@,
            forall|i: int|
                0 <= i < count ==> final(self).outputs@[i] == if i < old(self).outputs@.len() {
                    old(self).outputs@[i]
                } else {
                    None::<u64>
                },
    {
        self.outputs.resize(count, None);
    }

    /// The input port identifiers of the filled slots, in order.
    pub fn some_inputs(&self) -> (r: Vec<u64>)
        ensures
            r@ == some_of(self.inputs@),
    {
        some_of_exec(&self.inputs)
    }

    /// The output port identifiers of the filled slots, in order.
    pub fn some_outputs(&self) -> (r: Vec<u64>)
        ensures
            r@ == some_of(self.outputs@),
    {
        some_of_exec(&self.outputs)
    }
}

/// An output port's set of outgoing wire identifiers, kept for efficient
/// propagation.
#[derive(Clone, Debug, PartialEq, Eq)]
pub struct GateOutput {
    /// Holds the identifiers of outgoing wires; each appears once.
    pub wires: Vec<u64>,
}

/// A gate registered in a circuit: its behaviour and its port fans.
#[derive(Clone, Debug, PartialEq, Eq)]
pub struct GateNode {
    pub kind: GateKind,
    pub fans: LogicGateFans,
}

/// The signal and counter state a tick acts on: the signal store and the
/// desync counters.
pub struct TickState {
    pub signals: Map<u64, Signal>,
    pub desync: Map<u64, u32>,
}

/// The signals of the filled, registered ports of a fan list, in order;
/// slots that are empty or point at an unregistered port are skipped.
pub open spec fn gather_signals(signals: Map<u64, Signal>, fans: Seq<Option<u64>>) -> Seq<Signal>
    decreases fans.len(),
{
    if fans.len() == 0 {
        Seq::empty()
    } else {
        let rest = gather_signals(signals, fans.drop_last());
        match fans.last() {
            Some(p) => if signals.contains_key(p) {
                rest.push(signals[p])
            } else {
                rest
            },
            None => rest,
        }
    }
}

/// The identifiers of the filled, registered ports of a fan list, in
/// order; matches [`gather_signals`] slot for slot.
pub open spec fn gather_ports(signals: Map<u64, Signal>, fans: Seq<Option<u64>>) -> Seq<u64>
    decreases fans.len(),
{
    if fans.len() == 0 {
        Seq::empty()
    } else {
        let rest = gather_ports(signals, fans.drop_last());
        match fans.last() {
            Some(p) => if signals.contains_key(p) {
                rest.push(p)
            } else {
                rest
            },
            None => rest,
        }
    }
}

pub proof fn lemma_gather_lens(signals: Map<u64, Signal>, fans: Seq<Option<u64>>)
    ensures
        gather_signals(signals, fans).len() == gather_ports(signals, fans).len(),
    decreases fans.len(),
{
    if fans.len() > 0 {
        lemma_gather_lens(signals, fans.drop_last());
    }
}

/// Gathering depends on which ports are registered, not on their values:
/// two signal stores with the same domain gather the same ports, and the
/// same number of signals.
pub proof fn lemma_gather_dom(s1: Map<u64, Signal>, s2: Map<u64, Signal>, fans: Seq<Option<u64>>)
    requires
        s1.dom() == s2.dom(),
    ensures
        gather_ports(s1, fans) == gather_ports(s2, fans),
        gather_signals(s1, fans).len() == gather_signals(s2, fans).len(),
    decreases fans.len(),
{
    if fans.len() > 0 {
        lemma_gather_dom(s1, s2, fans.drop_last());
        match fans.last() {
            Some(p) => {
                assert(s1.dom().contains(p) == s2.dom().contains(p));
                assert(s1.contains_key(p) == s2.contains_key(p));
            },
            None => {},
        }
    }
}

/// Propagate the value `s` along the listed wires, left to right: the
/// wire's own cached signal takes `s`, then the wire's destination port
/// takes `s` if that port is registered.
pub open spec fn write_wires(
    signals: Map<u64, Signal>,
    wires: Map<u64, Wire>,
    ws: Seq<u64>,
    s: Signal,
) -> Map<u64, Signal>
    decreases ws.len(),
{
    if ws.len() == 0 {
        signals
    } else {
        let s1 = write_wires(signals, wires, ws.drop_last(), s);
        let w = ws.last();
        let s2 = s1.insert(w, s);
        if s2.contains_key(wires[w].to) {
            s2.insert(wires[w].to, s)
        } else {
            s2
        }
    }
}

/// Write one evaluated output: store the value at the output port, then
/// propagate it along the port's outgoing wires.
pub open spec fn write_one(
    signals: Map<u64, Signal>,
    outputs: Map<u64, GateOutput>,
    wires: Map<u64, Wire>,
    p: u64,
    s: Signal,
) -> Map<u64, Signal> {
    write_wires(signals.insert(p, s), wires, outputs[p].wires@, s)
}

/// Write all evaluated outputs in port order.
pub open spec fn write_outputs(
    signals: Map<u64, Signal>,
    outputs: Map<u64, GateOutput>,
    wires: Map<u64, Wire>,
    ports: Seq<u64>,
    vals: Seq<Signal>,
) -> Map<u64, Signal>
    decreases ports.len(),
{
    if ports.len() == 0 {
        signals
    } else {
        let s1 = write_outputs(signals, outputs, wires, ports.drop_last(), vals.drop_last());
        write_one(s1, outputs, wires, ports.last(), vals.last())
    }
}

/// One gate's turn within a tick: a gate with a live desync counter is
/// skipped and its counter decremented; otherwise its inputs and previous
/// outputs are gathered in port order, the behaviour is evaluated, and
/// the results are written back and propagated along the output wires.
pub open spec fn step_gate_spec(
    gates: Map<u64, GateNode>,
    outputs: Map<u64, GateOutput>,
    wires: Map<u64, Wire>,
    st: TickState,
    g: u64,
) -> TickState {
    if st.desync.contains_key(g) && st.desync[g] > 0 {
        TickState { signals: st.signals, desync: st.desync.insert(g, (st.desync[g] - 1) as u32) }
    } else {
        let node = gates[g];
        let ins = gather_signals(st.signals, node.fans.inputs@);
        let outp = gather_ports(st.signals, node.fans.outputs@);
        let prev = gather_signals(st.signals, node.fans.outputs@);
        let vals = node.kind.spec_out(ins, prev);
        TickState {
            signals: write_outputs(st.signals, outputs, wires, outp, vals),
            desync: st.desync,
        }
    }
}

/// One full evaluation pass: every gate of the compiled order takes its
/// turn, in order.
pub open spec fn tick_spec(
    gates: Map<u64, GateNode>,
    outputs: Map<u64, GateOutput>,
    wires: Map<u64, Wire>,
    st: TickState,
    order: Seq<u64>,
) -> TickState
    decreases order.len(),
{
    if order.len() == 0 {
        st
    } else {
        let st1 = tick_spec(gates, outputs, wires, st, order.drop_last());
        step_gate_spec(gates, outputs, wires, st1, order.last())
    }
}

/// Taking one more element of a sequence extends what it contains by
/// exactly that element.
pub proof fn lemma_take_contains(s: Seq<u64>, i: int, p: u64)
    requires
        0 <= i < s.len(),
    ensures
        s.take(i + 1).contains(p) <==> (s.take(i).contains(p) || s[i] == p),
{
    if s.take(i + 1).contains(p) {
        let k = choose|k: int| 0 <= k < i + 1 && #[trigger] s.take(i + 1)[k] == p;
        if k < i {
            assert(s.take(i)[k] == p);
        }
    }
    if s.take(i).contains(p) {
        let k = choose|k: int| 0 <= k < i && #[trigger] s.take(i)[k] == p;
        assert(s.take(i + 1)[k] == p);
    }
    if s[i] == p {
        assert(s.take(i + 1)[i] == p);
    }
}

/// Every gathered port is registered in the signal store, and fills some
/// slot of the fan list.
pub proof fn lemma_gather_ports_facts(s: Map<u64, Signal>, f: Seq<Option<u64>>)
    ensures
        forall|k: int|
            0 <= k < gather_ports(s, f).len() ==> s.contains_key(#[trigger] gather_ports(s, f)[k]),
        forall|k: int|
            0 <= k < gather_ports(s, f).len() ==> exists|i: int|
                0 <= i < f.len() && f[i] == Some(#[trigger] gather_ports(s, f)[k]),
    decreases f.len(),
{
    if f.len() > 0 {
        let pre = f.drop_last();
        lemma_gather_ports_facts(s, pre);
        let gp = gather_ports(s, f);
        let gpre = gather_ports(s, pre);
        assert forall|k: int| 0 <= k < gp.len() implies s.contains_key(#[trigger] gp[k]) && exists|
            i: int,
        | 0 <= i < f.len() && f[i] == Some(gp[k]) by {
            if k < gpre.len() {
                assert(gp[k] == gpre[k]);
                let i = choose|i: int| 0 <= i < pre.len() && pre[i] == Some(gpre[k]);
                assert(f[i] == Some(gp[k]));
            } else {
                assert(f.last() matches Some(p) && s.contains_key(p) && gp[k] == p);
                assert(f[f.len() - 1] == Some(gp[k]));
            }
        }
    }
}

/// What a gate demands of its gathered ports depends only on which ports
/// are registered, not on their values.
pub proof fn lemma_eval_requires_dom(
    kind: GateKind,
    s1: Map<u64, Signal>,
    s2: Map<u64, Signal>,
    fin: Seq<Option<u64>>,
    fout: Seq<Option<u64>>,
)
    requires
        s1.dom() == s2.dom(),
        kind.eval_requires(gather_signals(s1, fin), gather_signals(s1, fout)),
    ensures
        kind.eval_requires(gather_signals(s2, fin), gather_signals(s2, fout)),
{
    lemma_gather_dom(s1, s2, fin);
    lemma_gather_dom(s1, s2, fout);
}

/// One outgoing wire of a gate, with both its port endpoints and both
/// its gate endpoints.
#[derive(Clone, Copy, Debug, PartialEq, Eq, Structural)]
pub struct WireData {
    pub entity: u64,
    pub from: u64,
    pub from_gate: u64,
    pub to: u64,
    pub to_gate: u64,
}

impl WireData {
    /// The wire's own identifier.
    #[inline]
    pub fn id(&self) -> (r: u64)
        ensures
            r == self.entity,
    {
        self.entity
    }

    /// The output port the wire leaves.
    #[inline]
    pub fn input(&self) -> (r: u64)
        ensures
            r == self.from,
    {
        self.from
    }

    /// The input port the wire enters.
    #[inline]
    pub fn output(&self) -> (r: u64)
        ensures
            r == self.to,
    {
        self.to
    }
}

/// Every identifier listed by [`some_of`] fills some slot of the fan
/// list.
pub proof fn lemma_some_of_facts(f: Seq<Option<u64>>)
    ensures
        forall|k: int|
            0 <= k < some_of(f).len() ==> exists|i: int|
                0 <= i < f.len() && f[i] == Some(#[trigger] some_of(f)[k]),
    decreases f.len(),
{
    if f.len() > 0 {
        let pre = f.drop_last();
        lemma_some_of_facts(pre);
        let sp = some_of(f);
        let spre = some_of(pre);
        assert forall|k: int| 0 <= k < sp.len() implies exists|i: int|
            0 <= i < f.len() && f[i] == Some(#[trigger] sp[k]) by {
            if k < spre.len() {
                assert(sp[k] == spre[k]);
                let i = choose|i: int| 0 <= i < pre.len() && pre[i] == Some(spre[k]);
                assert(f[i] == Some(sp[k]));
            } else {
                assert(f[f.len() - 1] == Some(sp[k]));
            }
        }
    }
}

/// The set of gate identifiers a wire list adds to a graph when its edges are
/// registered, in order.
pub open spec fn nodes_with_wires(nodes: Set<u64>, wds: Seq<WireData>) -> Set<u64>
    decreases wds.len(),
{
    if wds.len() == 0 {
        nodes
    } else {
        nodes_with_wires(nodes, wds.drop_last()).insert(wds.last().from_gate).insert(
            wds.last().to_gate,
        )
    }
}

/// The edge map a wire list leaves after its edges are registered, in
/// order; a later wire between the same gates wins.
pub open spec fn edges_with_wires(
    edges: Map<(u64, u64), u64>,
    wds: Seq<WireData>,
) -> Map<(u64, u64), u64>
    decreases wds.len(),
{
    if wds.len() == 0 {
        edges
    } else {
        edges_with_wires(edges, wds.drop_last()).insert(
            (wds.last().from_gate, wds.last().to_gate),
            wds.last().entity,
        )
    }
}

/// Whether some edge into `gate` carries the label `x`.
pub open spec fn edge_label_into(edges: Map<(u64, u64), u64>, gate: u64, x: u64) -> bool {
    exists|a: u64| #[trigger] edges.contains_key((a, gate)) && edges[(a, gate)] == x
}

/// Whether `x` is the wire identifier of some listed (wire, from, to)
/// triple.
pub open spec fn listed_id(r: Seq<(u64, u64, u64)>, x: u64) -> bool {
    exists|i: int| 0 <= i < r.len() && (#[trigger] r[i]).0 == x
}

/// Listing one more triple extends the listed identifiers by exactly its
/// wire identifier.
pub proof fn lemma_take_listed(r: Seq<(u64, u64, u64)>, k: int, x: u64)
    requires
        0 <= k < r.len(),
    ensures
        listed_id(r.take(k + 1), x) <==> (listed_id(r.take(k), x) || r[k].0 == x),
{
    if listed_id(r.take(k + 1), x) {
        let i = choose|i: int| 0 <= i < k + 1 && (#[trigger] r.take(k + 1)[i]).0 == x;
        if i < k {
            assert((r.take(k)[i]).0 == x);
        }
    }
    if listed_id(r.take(k), x) {
        let i = choose|i: int| 0 <= i < k && (#[trigger] r.take(k)[i]).0 == x;
        assert((r.take(k + 1)[i]).0 == x);
    }
    if r[k].0 == x {
        assert((r.take(k + 1)[k]).0 == x);
    }
}

/// The mutable simulation state of one circuit: the registered gates,
/// the signal store for ports and wires, the per-output wire sets, the
/// wire records, the port-to-gate ownership, and the desync counters.
pub struct Circuit {
    gates: HashMap<u64, GateNode>,
    signals: HashMap<u64, Signal>,
    outputs: HashMap<u64, GateOutput>,
    wires: HashMap<u64, Wire>,
    owner: HashMap<u64, u64>,
    desync: HashMap<u64, u32>,
}

impl Circuit {
    /// The registered gates.
    pub closed spec fn gates_v(self) -> Map<u64, GateNode> {
        self.gates@
    }

    /// The signal store, covering ports and wires.
    pub closed spec fn signals_v(self) -> Map<u64, Signal> {
        self.signals@
    }

    /// The outgoing-wire sets of the output ports.
    pub closed spec fn outputs_v(self) -> Map<u64, GateOutput> {
        self.outputs@
    }

    /// The wire records.
    pub closed spec fn wires_v(self) -> Map<u64, Wire> {
        self.wires@
    }

    /// Which gate each port belongs to.
    pub closed spec fn owner_v(self) -> Map<u64, u64> {
        self.owner@
    }

    /// The desync counters.
    pub closed spec fn desync_v(self) -> Map<u64, u32> {
        self.desync@
    }

    /// The signal and counter state a tick acts on.
    pub open spec fn tick_state(self) -> TickState {
        TickState { signals: self.signals_v(), desync: self.desync_v() }
    }

    /// Well-formedness: every filled fan slot points at a registered
    /// port; output fans have wire sets; every listed wire is a
    /// registered wire with a signal, and its destination port has an
    /// owning gate.
    pub open spec fn wf(self) -> bool {
        &&& forall|g: u64, i: int|
            #![trigger self.gates_v()[g].fans.inputs@[i]]
            self.gates_v().contains_key(g) && 0 <= i < self.gates_v()[g].fans.inputs@.len() ==> (
            self.gates_v()[g].fans.inputs@[i] matches Some(p) ==> self.signals_v().contains_key(p))
        &&& forall|g: u64, i: int|
            #![trigger self.gates_v()[g].fans.outputs@[i]]
            self.gates_v().contains_key(g) && 0 <= i < self.gates_v()[g].fans.outputs@.len() ==> (
            self.gates_v()[g].fans.outputs@[i] matches Some(p) ==> self.signals_v().contains_key(p)
                && self.outputs_v().contains_key(p))
        &&& forall|p: u64, t: int|
            #![trigger self.outputs_v()[p].wires@[t]]
            self.outputs_v().contains_key(p) && 0 <= t < self.outputs_v()[p].wires@.len() ==> {
                let w = self.outputs_v()[p].wires@[t];
                &&& self.wires_v().contains_key(w)
                &&& self.signals_v().contains_key(w)
                &&& self.owner_v().contains_key(self.wires_v()[w].to)
            }
    }

    /// Well-formedness survives any change that keeps the structural
    /// maps and only grows the signal store.
    pub proof fn lemma_wf_more_signals(c1: Circuit, c2: Circuit)
        requires
            c1.wf(),
            c2.gates_v() == c1.gates_v(),
            c2.outputs_v() == c1.outputs_v(),
            c2.wires_v() == c1.wires_v(),
            c2.owner_v() == c1.owner_v(),
            forall|p: u64|
                c1.signals_v().contains_key(p) ==> #[trigger] c2.signals_v().contains_key(p),
        ensures
            c2.wf(),
    {
        assert forall|g: u64, i: int|
            c2.gates_v().contains_key(g) && 0 <= i < c2.gates_v()[g].fans.inputs@.len() implies (
        #[trigger] c2.gates_v()[g].fans.inputs@[i] matches Some(p)
            ==> c2.signals_v().contains_key(p)) by {
            assert(c1.gates_v()[g].fans.inputs@[i] == c2.gates_v()[g].fans.inputs@[i]);
        }
        assert forall|g: u64, i: int|
            c2.gates_v().contains_key(g) && 0 <= i < c2.gates_v()[g].fans.outputs@.len() implies (
        #[trigger] c2.gates_v()[g].fans.outputs@[i] matches Some(p)
            ==> c2.signals_v().contains_key(p) && c2.outputs_v().contains_key(p)) by {
            assert(c1.gates_v()[g].fans.outputs@[i] == c2.gates_v()[g].fans.outputs@[i]);
        }
        assert forall|p: u64, t: int|
            c2.outputs_v().contains_key(p) && 0 <= t < c2.outputs_v()[p].wires@.len() implies {
            let w = #[trigger] c2.outputs_v()[p].wires@[t];
            &&& c2.wires_v().contains_key(w)
            &&& c2.signals_v().contains_key(w)
            &&& c2.owner_v().contains_key(c2.wires_v()[w].to)
        } by {
            assert(c1.outputs_v()[p].wires@[t] == c2.outputs_v()[p].wires@[t]);
        }
    }

    /// An empty circuit.
    pub fn new() -> (r: Circuit)
        ensures
            r.gates_v() == Map::<u64, GateNode>::empty(),
            r.signals_v() == Map::<u64, Signal>::empty(),
            r.outputs_v() == Map::<u64, GateOutput>::empty(),
            r.wires_v() == Map::<u64, Wire>::empty(),
            r.owner_v() == Map::<u64, u64>::empty(),
            r.desync_v() == Map::<u64, u32>::empty(),
            r.wf(),
    {
        Circuit {
            gates: HashMap::new(),
            signals: HashMap::new(),
            outputs: HashMap::new(),
            wires: HashMap::new(),
            owner: HashMap::new(),
            desync: HashMap::new(),
        }
    }

    /// The signal of a port or wire, if it is registered.
    pub fn get_signal(&self, entity: u64) -> (r: Option<Signal>)
        ensures
            r == if self.signals_v().contains_key(entity) {
                Some(self.signals_v()[entity])
            } else {
                None::<Signal>
            },
    {
        match self.signals.get(&entity) {
            Some(s) => Some(*s),
            None => None,
        }
    }

    /// Set the signal of a port or wire, registering the entity if it is
    /// new.
    pub fn set_signal(&mut self, entity: u64, signal: Signal)
        ensures
            final(self).signals_v() == old(self).signals_v().insert(entity, signal),
            final(self).gates_v() == old(self).gates_v(),
            final(self).outputs_v() == old(self).outputs_v(),
            final(self).wires_v() == old(self).wires_v(),
            final(self).owner_v() == old(self).owner_v(),
            final(self).desync_v() == old(self).desync_v(),
            old(self).wf() ==> final(self).wf(),
    {
        self.signals.insert(entity, signal);
        proof {
            if old(self).wf() {
                Self::lemma_wf_more_signals(*old(self), *self);
            }
        }
    }

    /// The record of a wire, if it is registered.
    pub fn get_wire(&self, wire: u64) -> (r: Option<Wire>)
        ensures
            r == if self.wires_v().contains_key(wire) {
                Some(self.wires_v()[wire])
            } else {
                None::<Wire>
            },
    {
        match self.wires.get(&wire) {
            Some(w) => Some(*w),
            None => None,
        }
    }

    /// Attach or bump the desync counter of a gate or wire: a freshly
    /// spliced entity sits out a small, even number of ticks.
    pub fn add_desync(&mut self, entity: u64)
        requires
            old(self).desync_v().contains_key(entity) ==> old(self).desync_v()[entity] <= u32::MAX
                - 2,
        ensures
            final(self).desync_v() == old(self).desync_v().insert(
                entity,
                if old(self).desync_v().contains_key(entity) {
                    (old(self).desync_v()[entity] + 2) as u32
                } else {
                    2u32
                },
            ),
            final(self).signals_v() == old(self).signals_v(),
            final(self).gates_v() == old(self).gates_v(),
            final(self).outputs_v() == old(self).outputs_v(),
            final(self).wires_v() == old(self).wires_v(),
            final(self).owner_v() == old(self).owner_v(),
            old(self).wf() ==> final(self).wf(),
    {
        let cur: u32 = match self.desync.get(&entity) {
            Some(d) => *d,
            None => 0,
        };
        self.desync.insert(entity, cur + 2);
        proof {
            if old(self).wf() {
                Self::lemma_wf_more_signals(*old(self), *self);
            }
        }
    }

    /// The desync counter of a gate or wire; zero means it participates.
    pub fn desync_of(&self, entity: u64) -> (r: u32)
        ensures
            r == if self.desync_v().contains_key(entity) {
                self.desync_v()[entity]
            } else {
                0u32
            },
    {
        match self.desync.get(&entity) {
            Some(d) => *d,
            None => 0,
        }
    }

    /// Register a gate with its behaviour and its ordered input and
    /// output ports. Each port starts with an `Undefined` signal, is
    /// owned by that gate, and each output port gets an empty wire set.
    pub fn add_gate(&mut self, gate: u64, kind: GateKind, inputs: &Vec<u64>, outputs: &Vec<u64>)
        ensures
            final(self).gates_v().contains_key(gate),
            final(self).gates_v()[gate].kind == kind,
            final(self).gates_v()[gate].fans.inputs@ == inputs@.map_values(|p: u64| Some(p)),
            final(self).gates_v()[gate].fans.outputs@ == outputs@.map_values(|p: u64| Some(p)),
            forall|g: u64|
                g != gate ==> (#[trigger] final(self).gates_v().contains_key(g) == old(self).gates_v().contains_key(g) && (old(self).gates_v().contains_key(g) ==> final(self).gates_v()[g] == old(self).gates_v()[g])),
            forall|p: u64| #[trigger]
                final(self).signals_v().contains_key(p) <==> (old(self).signals_v().contains_key(p)
                    || inputs@.contains(p) || outputs@.contains(p)),
            forall|p: u64|
                inputs@.contains(p) || outputs@.contains(p) ==> final(self).signals_v()[p]
                    == Signal::Undefined,
            forall|p: u64|
                !inputs@.contains(p) && !outputs@.contains(p) && old(self).signals_v().contains_key(p) ==> final(self).signals_v()[p] == old(self).signals_v()[p],
            forall|p: u64| #[trigger]
                final(self).owner_v().contains_key(p) <==> (old(self).owner_v().contains_key(p)
                    || inputs@.contains(p) || outputs@.contains(p)),
            forall|p: u64|
                inputs@.contains(p) || outputs@.contains(p) ==> final(self).owner_v()[p] == gate,
            forall|p: u64|
                !inputs@.contains(p) && !outputs@.contains(p) && old(self).owner_v().contains_key(p) ==> final(self).owner_v()[p] == old(self).owner_v()[p],
            forall|p: u64| #[trigger]
                final(self).outputs_v().contains_key(p) <==> (old(self).outputs_v().contains_key(p)
                    || outputs@.contains(p)),
            forall|p: u64|
                outputs@.contains(p) ==> final(self).outputs_v()[p].wires@ == Seq::<u64>::empty(),
            forall|p: u64|
                !outputs@.contains(p) && old(self).outputs_v().contains_key(p) ==> final(self).outputs_v()[p] == old(self).outputs_v()[p],
            final(self).wires_v() == old(self).wires_v(),
            final(self).desync_v() == old(self).desync_v(),
            old(self).wf() ==> final(self).wf(),
    {
        let mut fan_in: Vec<Option<u64>> = Vec::new();
        let mut i: usize = 0;
        while i < inputs.len()
            invariant
                0 <= i <= inputs@.len(),
                fan_in@ == inputs@.take(i as int).map_values(|p: u64| Some(p)),
            decreases inputs@.len() - i,
        {
            fan_in.push(Some(inputs[i]));
            proof {
                assert(fan_in@ =~= inputs@.take(i + 1).map_values(|p: u64| Some(p)));
            }
            i = i + 1;
        }
        let mut fan_out: Vec<Option<u64>> = Vec::new();
        let mut j: usize = 0;
        while j < outputs.len()
            invariant
                0 <= j <= outputs@.len(),
                fan_out@ == outputs@.take(j as int).map_values(|p: u64| Some(p)),
            decreases outputs@.len() - j,
        {
            fan_out.push(Some(outputs[j]));
            proof {
                assert(fan_out@ =~= outputs@.take(j + 1).map_values(|p: u64| Some(p)));
            }
            j = j + 1;
        }
        proof {
            assert(inputs@.take(inputs@.len() as int) =~= inputs@);
            assert(outputs@.take(outputs@.len() as int) =~= outputs@);
        }
        let node = GateNode { kind, fans: LogicGateFans { inputs: fan_in, outputs: fan_out } };
        self.gates.insert(gate, node);
        let ghost mid = *self;
        let mut i2: usize = 0;
        while i2 < inputs.len()
            invariant
                0 <= i2 <= inputs@.len(),
                self.gates@ == mid.gates_v(),
                self.outputs@ == mid.outputs_v(),
                self.wires@ == mid.wires_v(),
                self.desync@ == mid.desync_v(),
                forall|p: u64| #[trigger]
                    self.signals@.contains_key(p) <==> (mid.signals_v().contains_key(p)
                        || inputs@.take(i2 as int).contains(p)),
                forall|p: u64|
                    inputs@.take(i2 as int).contains(p) ==> self.signals@[p] == Signal::Undefined,
                forall|p: u64|
                    !inputs@.take(i2 as int).contains(p) && mid.signals_v().contains_key(p)
                        ==> self.signals@[p] == mid.signals_v()[p],
                forall|p: u64| #[trigger]
                    self.owner@.contains_key(p) <==> (mid.owner_v().contains_key(p)
                        || inputs@.take(i2 as int).contains(p)),
                forall|p: u64|
                    inputs@.take(i2 as int).contains(p) ==> self.owner@[p] == gate,
                forall|p: u64|
                    !inputs@.take(i2 as int).contains(p) && mid.owner_v().contains_key(p)
                        ==> self.owner@[p] == mid.owner_v()[p],
            decreases inputs@.len() - i2,
        {
            let p = inputs[i2];
            self.signals.insert(p, Signal::Undefined);
            self.owner.insert(p, gate);
            proof {
                lemma_take_contains(inputs@, i2 as int, p);
                assert forall|q: u64|
                    #[trigger] inputs@.take(i2 + 1).contains(q)
                        == (inputs@.take(i2 as int).contains(q) || q == p) by {
                    lemma_take_contains(inputs@, i2 as int, q);
                }
            }
            i2 = i2 + 1;
        }
        let ghost mid2 = *self;
        let mut j2: usize = 0;
        while j2 < outputs.len()
            invariant
                0 <= j2 <= outputs@.len(),
                self.gates@ == mid2.gates_v(),
                self.wires@ == mid2.wires_v(),
                self.desync@ == mid2.desync_v(),
                forall|p: u64| #[trigger]
                    self.signals@.contains_key(p) <==> (mid2.signals_v().contains_key(p)
                        || outputs@.take(j2 as int).contains(p)),
                forall|p: u64|
                    outputs@.take(j2 as int).contains(p) ==> self.signals@[p] == Signal::Undefined,
                forall|p: u64|
                    !outputs@.take(j2 as int).contains(p) && mid2.signals_v().contains_key(p)
                        ==> self.signals@[p] == mid2.signals_v()[p],
                forall|p: u64| #[trigger]
                    self.owner@.contains_key(p) <==> (mid2.owner_v().contains_key(p)
                        || outputs@.take(j2 as int).contains(p)),
                forall|p: u64|
                    outputs@.take(j2 as int).contains(p) ==> self.owner@[p] == gate,
                forall|p: u64|
                    !outputs@.take(j2 as int).contains(p) && mid2.owner_v().contains_key(p)
                        ==> self.owner@[p] == mid2.owner_v()[p],
                forall|p: u64| #[trigger]
                    self.outputs@.contains_key(p) <==> (mid2.outputs_v().contains_key(p)
                        || outputs@.take(j2 as int).contains(p)),
                forall|p: u64|
                    outputs@.take(j2 as int).contains(p) ==> self.outputs@[p].wires@ == Seq::<
                        u64,
                    >::empty(),
                forall|p: u64|
                    !outputs@.take(j2 as int).contains(p) && mid2.outputs_v().contains_key(p)
                        ==> self.outputs@[p] == mid2.outputs_v()[p],
            decreases outputs@.len() - j2,
        {
            let p = outputs[j2];
            self.signals.insert(p, Signal::Undefined);
            self.owner.insert(p, gate);
            self.outputs.insert(p, GateOutput { wires: Vec::new() });
            proof {
                assert forall|q: u64|
                    #[trigger] outputs@.take(j2 + 1).contains(q)
                        == (outputs@.take(j2 as int).contains(q) || q == p) by {
                    lemma_take_contains(outputs@, j2 as int, q);
                }
            }
            j2 = j2 + 1;
        }
        proof {
            assert(inputs@.take(inputs@.len() as int) =~= inputs@);
            assert(outputs@.take(outputs@.len() as int) =~= outputs@);
            assert forall|p: u64|
                inputs@.contains(p) || outputs@.contains(p) implies self.signals@[p]
                == Signal::Undefined by {
                if !outputs@.contains(p) {
                    assert(mid2.signals_v()[p] == Signal::Undefined);
                }
            }
            assert forall|p: u64|
                !inputs@.contains(p) && !outputs@.contains(p) && old(self).signals_v().contains_key(p) implies self.signals@[p] == old(self).signals_v()[p] by {
                assert(mid2.signals_v()[p] == mid.signals_v()[p]);
            }
            assert forall|p: u64|
                inputs@.contains(p) || outputs@.contains(p) implies self.owner@[p] == gate by {
                if !outputs@.contains(p) {
                    assert(mid2.owner_v()[p] == gate);
                }
            }
            assert forall|p: u64|
                !inputs@.contains(p) && !outputs@.contains(p) && old(self).owner_v().contains_key(p) implies self.owner@[p] == old(self).owner_v()[p] by {
                assert(mid2.owner_v()[p] == mid.owner_v()[p]);
            }
            assert forall|p: u64|
                !outputs@.contains(p) && old(self).outputs_v().contains_key(p) implies self
                .outputs@[p] == old(self).outputs_v()[p] by {
                assert(mid2.outputs_v()[p] == old(self).outputs_v()[p]);
            }
            if old(self).wf() {
                let c2 = *self;
                assert forall|g: u64, i3: int|
                    c2.gates_v().contains_key(g) && 0 <= i3 < c2.gates_v()[g].fans.inputs@.len()
                        implies (#[trigger] c2.gates_v()[g].fans.inputs@[i3] matches Some(p)
                    ==> c2.signals_v().contains_key(p)) by {
                    if g != gate {
                        assert(old(self).gates_v()[g].fans.inputs@[i3]
                            == c2.gates_v()[g].fans.inputs@[i3]);
                    } else {
                        let slot = c2.gates_v()[g].fans.inputs@[i3];
                        match slot {
                            Some(q) => {
                                assert(inputs@[i3] == q);
                                assert(inputs@.contains(q));
                            },
                            None => {},
                        }
                    }
                }
                assert forall|g: u64, i3: int|
                    c2.gates_v().contains_key(g) && 0 <= i3 < c2.gates_v()[g].fans.outputs@.len()
                        implies (#[trigger] c2.gates_v()[g].fans.outputs@[i3] matches Some(p)
                    ==> c2.signals_v().contains_key(p) && c2.outputs_v().contains_key(p)) by {
                    if g != gate {
                        assert(old(self).gates_v()[g].fans.outputs@[i3]
                            == c2.gates_v()[g].fans.outputs@[i3]);
                    } else {
                        let slot = c2.gates_v()[g].fans.outputs@[i3];
                        match slot {
                            Some(q) => {
                                assert(outputs@[i3] == q);
                                assert(outputs@.contains(q));
                            },
                            None => {},
                        }
                    }
                }
                assert forall|p: u64, t: int|
                    c2.outputs_v().contains_key(p) && 0 <= t < c2.outputs_v()[p].wires@.len()
                        implies {
                    let w = #[trigger] c2.outputs_v()[p].wires@[t];
                    &&& c2.wires_v().contains_key(w)
                    &&& c2.signals_v().contains_key(w)
                    &&& c2.owner_v().contains_key(c2.wires_v()[w].to)
                } by {
                    if !outputs@.contains(p) {
                        assert(c2.outputs_v()[p] == old(self).outputs_v()[p]);
                        let w = c2.outputs_v()[p].wires@[t];
                        assert(old(self).outputs_v()[p].wires@[t] == w);
                    }
                }
            }
        }
    }

    /// Register a wire from an output port to an input port: the wire
    /// gets an `Undefined` signal and joins the output port's wire set
    /// if it is not yet in it. The output port must carry a wire set and
    /// the input port must belong to a gate; anything else is a
    /// topology-construction fault.
    pub fn add_wire(&mut self, wire: u64, from_output: u64, to_input: u64)
        requires
            old(self).outputs_v().contains_key(from_output),
            old(self).owner_v().contains_key(to_input),
        ensures
            final(self).wires_v() == old(self).wires_v().insert(
                wire,
                Wire { from: from_output, to: to_input },
            ),
            final(self).signals_v() == old(self).signals_v().insert(wire, Signal::Undefined),
            forall|p: u64| #[trigger]
                final(self).outputs_v().contains_key(p) == old(self).outputs_v().contains_key(p),
            forall|p: u64|
                p != from_output && old(self).outputs_v().contains_key(p) ==> final(self).outputs_v()[p] == old(self).outputs_v()[p],
            final(self).outputs_v()[from_output].wires@ == if old(self).outputs_v()[from_output].wires@.contains(wire) {
                old(self).outputs_v()[from_output].wires@
            } else {
                old(self).outputs_v()[from_output].wires@.push(wire)
            },
            final(self).gates_v() == old(self).gates_v(),
            final(self).owner_v() == old(self).owner_v(),
            final(self).desync_v() == old(self).desync_v(),
            old(self).wf() ==> final(self).wf(),
    {
        self.wires.insert(wire, Wire { from: from_output, to: to_input });
        self.signals.insert(wire, Signal::Undefined);
        let ow = self.outputs.get(&from_output).unwrap();
        let mut ws: Vec<u64> = Vec::new();
        let mut found = false;
        let mut t: usize = 0;
        while t < ow.wires.len()
            invariant
                0 <= t <= ow.wires@.len(),
                ws@ == ow.wires@.take(t as int),
                found == ow.wires@.take(t as int).contains(wire),
            decreases ow.wires@.len() - t,
        {
            let w = ow.wires[t];
            ws.push(w);
            if w == wire {
                found = true;
            }
            proof {
                assert(ws@ =~= ow.wires@.take(t + 1));
                lemma_take_contains(ow.wires@, t as int, wire);
            }
            t = t + 1;
        }
        proof {
            assert(ow.wires@.take(ow.wires@.len() as int) =~= ow.wires@);
        }
        if !found {
            ws.push(wire);
        }
        self.outputs.insert(from_output, GateOutput { wires: ws });
        proof {
            if old(self).wf() {
                let c2 = *self;
                let c1 = *old(self);
                assert forall|g: u64, i3: int|
                    c2.gates_v().contains_key(g) && 0 <= i3 < c2.gates_v()[g].fans.inputs@.len()
                        implies (#[trigger] c2.gates_v()[g].fans.inputs@[i3] matches Some(p)
                    ==> c2.signals_v().contains_key(p)) by {
                    assert(c1.gates_v()[g].fans.inputs@[i3] == c2.gates_v()[g].fans.inputs@[i3]);
                }
                assert forall|g: u64, i3: int|
                    c2.gates_v().contains_key(g) && 0 <= i3 < c2.gates_v()[g].fans.outputs@.len()
                        implies (#[trigger] c2.gates_v()[g].fans.outputs@[i3] matches Some(p)
                    ==> c2.signals_v().contains_key(p) && c2.outputs_v().contains_key(p)) by {
                    assert(c1.gates_v()[g].fans.outputs@[i3] == c2.gates_v()[g].fans.outputs@[i3]);
                }
                assert forall|p: u64, t2: int|
                    c2.outputs_v().contains_key(p) && 0 <= t2 < c2.outputs_v()[p].wires@.len()
                        implies {
                    let w = #[trigger] c2.outputs_v()[p].wires@[t2];
                    &&& c2.wires_v().contains_key(w)
                    &&& c2.signals_v().contains_key(w)
                    &&& c2.owner_v().contains_key(c2.wires_v()[w].to)
                } by {
                    let w = c2.outputs_v()[p].wires@[t2];
                    if p == from_output {
                        if t2 < c1.outputs_v()[from_output].wires@.len() {
                            assert(c1.outputs_v()[p].wires@[t2] == w);
                        } else {
                            assert(w == wire);
                        }
                    } else {
                        assert(c1.outputs_v()[p].wires@[t2] == w);
                    }
                }
            }
        }
    }
    /// A value is in a pushed sequence exactly when it was there before
    /// or is the pushed value.
    pub proof fn lemma_push_contains(s: Seq<u64>, v: u64, x: u64)
        ensures
            s.push(v).contains(x) <==> (s.contains(x) || v == x),
    {
        if s.push(v).contains(x) {
            let k = choose|k: int| 0 <= k < s.push(v).len() && #[trigger] s.push(v)[k] == x;
            if k < s.len() {
                assert(s[k] == x);
            }
        }
        if s.contains(x) {
            let k = choose|k: int| 0 <= k < s.len() && #[trigger] s[k] == x;
            assert(s.push(v)[k] == x);
        }
        if v == x {
            assert(s.push(v)[s.len() as int] == x);
        }
    }

    /// Add a wire identifier to an output port's wire set, unless it is
    /// already in it.
    pub fn insert_output_wire(&mut self, output: u64, wire: u64)
        requires
            old(self).wf(),
            old(self).outputs_v().contains_key(output),
            old(self).wires_v().contains_key(wire),
            old(self).signals_v().contains_key(wire),
            old(self).owner_v().contains_key(old(self).wires_v()[wire].to),
        ensures
            forall|p: u64| #[trigger]
                final(self).outputs_v().contains_key(p) == old(self).outputs_v().contains_key(p),
            forall|p: u64|
                p != output && old(self).outputs_v().contains_key(p) ==> final(self).outputs_v()[p]
                    == old(self).outputs_v()[p],
            final(self).outputs_v()[output].wires@ == if old(self).outputs_v()[output].wires@.contains(wire) {
                old(self).outputs_v()[output].wires@
            } else {
                old(self).outputs_v()[output].wires@.push(wire)
            },
            final(self).gates_v() == old(self).gates_v(),
            final(self).signals_v() == old(self).signals_v(),
            final(self).wires_v() == old(self).wires_v(),
            final(self).owner_v() == old(self).owner_v(),
            final(self).desync_v() == old(self).desync_v(),
            final(self).wf(),
    {
        let ow = self.outputs.get(&output).unwrap();
        let mut ws: Vec<u64> = Vec::new();
        let mut found = false;
        let mut t: usize = 0;
        while t < ow.wires.len()
            invariant
                0 <= t <= ow.wires@.len(),
                ws@ == ow.wires@.take(t as int),
                found == ow.wires@.take(t as int).contains(wire),
            decreases ow.wires@.len() - t,
        {
            let w = ow.wires[t];
            ws.push(w);
            if w == wire {
                found = true;
            }
            proof {
                assert(ws@ =~= ow.wires@.take(t + 1));
                lemma_take_contains(ow.wires@, t as int, wire);
            }
            t = t + 1;
        }
        proof {
            assert(ow.wires@.take(ow.wires@.len() as int) =~= ow.wires@);
        }
        if !found {
            ws.push(wire);
        }
        self.outputs.insert(output, GateOutput { wires: ws });
        proof {
            let c2 = *self;
            let c1 = *old(self);
            assert forall|g: u64, i3: int|
                c2.gates_v().contains_key(g) && 0 <= i3 < c2.gates_v()[g].fans.inputs@.len()
                    implies (#[trigger] c2.gates_v()[g].fans.inputs@[i3] matches Some(p)
                ==> c2.signals_v().contains_key(p)) by {
                assert(c1.gates_v()[g].fans.inputs@[i3] == c2.gates_v()[g].fans.inputs@[i3]);
            }
            assert forall|g: u64, i3: int|
                c2.gates_v().contains_key(g) && 0 <= i3 < c2.gates_v()[g].fans.outputs@.len()
                    implies (#[trigger] c2.gates_v()[g].fans.outputs@[i3] matches Some(p)
                ==> c2.signals_v().contains_key(p) && c2.outputs_v().contains_key(p)) by {
                assert(c1.gates_v()[g].fans.outputs@[i3] == c2.gates_v()[g].fans.outputs@[i3]);
            }
            assert forall|p: u64, t2: int|
                c2.outputs_v().contains_key(p) && 0 <= t2 < c2.outputs_v()[p].wires@.len() implies {
                let w = #[trigger] c2.outputs_v()[p].wires@[t2];
                &&& c2.wires_v().contains_key(w)
                &&& c2.signals_v().contains_key(w)
                &&& c2.owner_v().contains_key(c2.wires_v()[w].to)
            } by {
                let w = c2.outputs_v()[p].wires@[t2];
                if p == output {
                    if t2 < c1.outputs_v()[output].wires@.len() {
                        assert(c1.outputs_v()[p].wires@[t2] == w);
                    } else {
                        assert(w == wire);
                    }
                } else {
                    assert(c1.outputs_v()[p].wires@[t2] == w);
                }
            }
        }
    }

    /// Remove a wire identifier from an output port's wire set.
    pub fn remove_output_wire(&mut self, output: u64, wire: u64)
        requires
            old(self).wf(),
            old(self).outputs_v().contains_key(output),
        ensures
            forall|p: u64| #[trigger]
                final(self).outputs_v().contains_key(p) == old(self).outputs_v().contains_key(p),
            forall|p: u64|
                p != output && old(self).outputs_v().contains_key(p) ==> final(self).outputs_v()[p]
                    == old(self).outputs_v()[p],
            forall|x: u64|
                #[trigger] final(self).outputs_v()[output].wires@.contains(x) <==> (old(self).outputs_v()[output].wires@.contains(x) && x != wire),
            final(self).gates_v() == old(self).gates_v(),
            final(self).signals_v() == old(self).signals_v(),
            final(self).wires_v() == old(self).wires_v(),
            final(self).owner_v() == old(self).owner_v(),
            final(self).desync_v() == old(self).desync_v(),
            final(self).wf(),
    {
        let ow = self.outputs.get(&output).unwrap();
        let mut ws: Vec<u64> = Vec::new();
        let mut t: usize = 0;
        while t < ow.wires.len()
            invariant
                0 <= t <= ow.wires@.len(),
                forall|x: u64|
                    #[trigger] ws@.contains(x) <==> (ow.wires@.take(t as int).contains(x) && x
                        != wire),
                forall|k: int|
                    0 <= k < ws@.len() ==> exists|l: int|
                        0 <= l < t && ow.wires@[l] == #[trigger] ws@[k],
            decreases ow.wires@.len() - t,
        {
            let w = ow.wires[t];
            let ghost ws0 = ws@;
            if w != wire {
                ws.push(w);
                proof {
                    assert(ws@ == ws0.push(w));
                    assert forall|x: u64| #[trigger]
                        ws@.contains(x) == (ws0.contains(x) || w == x) by {
                        Self::lemma_push_contains(ws0, w, x);
                    }
                    assert forall|k: int| 0 <= k < ws@.len() implies exists|l: int|
                        0 <= l < t + 1 && ow.wires@[l] == #[trigger] ws@[k] by {
                        if k < ws0.len() {
                            assert(ws@[k] == ws0[k]);
                        } else {
                            assert(ws@[k] == ow.wires@[t as int]);
                        }
                    }
                }
            }
            proof {
                assert forall|x: u64|
                    #[trigger] ow.wires@.take(t + 1).contains(x) == (ow.wires@.take(
                        t as int,
                    ).contains(x) || ow.wires@[t as int] == x) by {
                    lemma_take_contains(ow.wires@, t as int, x);
                }
            }
            t = t + 1;
        }
        proof {
            assert(ow.wires@.take(ow.wires@.len() as int) =~= ow.wires@);
        }
        self.outputs.insert(output, GateOutput { wires: ws });
        proof {
            let c2 = *self;
            let c1 = *old(self);
            assert forall|g: u64, i3: int|
                c2.gates_v().contains_key(g) && 0 <= i3 < c2.gates_v()[g].fans.inputs@.len()
                    implies (#[trigger] c2.gates_v()[g].fans.inputs@[i3] matches Some(p)
                ==> c2.signals_v().contains_key(p)) by {
                assert(c1.gates_v()[g].fans.inputs@[i3] == c2.gates_v()[g].fans.inputs@[i3]);
            }
            assert forall|g: u64, i3: int|
                c2.gates_v().contains_key(g) && 0 <= i3 < c2.gates_v()[g].fans.outputs@.len()
                    implies (#[trigger] c2.gates_v()[g].fans.outputs@[i3] matches Some(p)
                ==> c2.signals_v().contains_key(p) && c2.outputs_v().contains_key(p)) by {
                assert(c1.gates_v()[g].fans.outputs@[i3] == c2.gates_v()[g].fans.outputs@[i3]);
            }
            assert forall|p: u64, t2: int|
                c2.outputs_v().contains_key(p) && 0 <= t2 < c2.outputs_v()[p].wires@.len() implies {
                let w = #[trigger] c2.outputs_v()[p].wires@[t2];
                &&& c2.wires_v().contains_key(w)
                &&& c2.signals_v().contains_key(w)
                &&& c2.owner_v().contains_key(c2.wires_v()[w].to)
            } by {
                let w = c2.outputs_v()[p].wires@[t2];
                if p == output {
                    let l = choose|l: int|
                        0 <= l < c1.outputs_v()[output].wires@.len() && c1.outputs_v(
                        )[output].wires@[l] == w;
                    assert(c1.outputs_v()[output].wires@[l] == w);
                } else {
                    assert(c1.outputs_v()[p].wires@[t2] == w);
                }
            }
        }
    }

    /// Propagate the value `s` from the output port `p` along its
    /// outgoing wires: each wire's cached signal and, when registered,
    /// each destination input port take the value. The signal store's
    /// domain does not change.
    fn write_port(&mut self, p: u64, s: Signal)
        requires
            old(self).wf(),
            old(self).outputs_v().contains_key(p),
            old(self).signals_v().contains_key(p),
        ensures
            final(self).signals_v() == write_one(
                old(self).signals_v(),
                old(self).outputs_v(),
                old(self).wires_v(),
                p,
                s,
            ),
            final(self).gates_v() == old(self).gates_v(),
            final(self).outputs_v() == old(self).outputs_v(),
            final(self).wires_v() == old(self).wires_v(),
            final(self).owner_v() == old(self).owner_v(),
            final(self).desync_v() == old(self).desync_v(),
            final(self).signals_v().dom() == old(self).signals_v().dom(),
            final(self).wf(),
    {
        let ghost wires0 = self.wires@;
        self.signals.insert(p, s);
        let ghost s_base = self.signals@;
        proof {
            assert(s_base.dom() =~= old(self).signals_v().dom());
        }
        let ow = self.outputs.get(&p).unwrap();
        let ghost ws = ow.wires@;
        let mut t: usize = 0;
        while t < ow.wires.len()
            invariant
                0 <= t <= ws.len(),
                ow.wires@ == ws,
                s_base == old(self).signals_v().insert(p, s),
                s_base.dom() == old(self).signals_v().dom(),
                wires0 == old(self).wires_v(),
                old(self).wf(),
                old(self).outputs_v().contains_key(p),
                self.gates@ == old(self).gates_v(),
                self.outputs@ == old(self).outputs_v(),
                self.wires@ == old(self).wires_v(),
                self.owner@ == old(self).owner_v(),
                self.desync@ == old(self).desync_v(),
                ow.wires@ == old(self).outputs_v()[p].wires@,
                self.signals@ == write_wires(s_base, wires0, ws.take(t as int), s),
                self.signals@.dom() == s_base.dom(),
            decreases ws.len() - t,
        {
            let w = ow.wires[t];
            proof {
                assert(old(self).outputs_v()[p].wires@[t as int] == w);
                assert(old(self).wires_v().contains_key(w));
                assert(old(self).signals_v().contains_key(w));
            }
            let wr = *self.wires.get(&w).unwrap();
            let ghost s1 = self.signals@;
            self.signals.insert(w, s);
            proof {
                assert(s1.dom() == s_base.dom());
                assert(s_base.dom() == old(self).signals_v().dom());
                assert(old(self).signals_v().contains_key(w));
                assert(s1.contains_key(w));
                assert(self.signals@ == s1.insert(w, s));
                assert(self.signals@.dom() =~= s1.dom());
            }
            let ghost s2 = self.signals@;
            if self.signals.contains_key(&wr.to) {
                self.signals.insert(wr.to, s);
                proof {
                    assert(self.signals@.dom() =~= s2.dom());
                }
            }
            proof {
                assert(ws.take(t + 1).drop_last() =~= ws.take(t as int));
                assert(ws.take(t + 1).last() == ws[t as int]);
                assert(self.signals@ == write_wires(s_base, wires0, ws.take(t + 1), s));
            }
            t = t + 1;
        }
        proof {
            assert(ws.take(ws.len() as int) =~= ws);
            Self::lemma_wf_more_signals(*old(self), *self);
        }
    }

    /// One gate's turn within a tick; see [`step_gate_spec`]. That gate
    /// must be registered, and its gathered ports must satisfy what its
    /// behaviour demands of them.
    fn step_gate(&mut self, g: u64)
        requires
            old(self).wf(),
            old(self).gates_v().contains_key(g),
            old(self).gates_v()[g].kind.eval_requires(
                gather_signals(old(self).signals_v(), old(self).gates_v()[g].fans.inputs@),
                gather_signals(old(self).signals_v(), old(self).gates_v()[g].fans.outputs@),
            ),
        ensures
            final(self).signals_v() == step_gate_spec(
                old(self).gates_v(),
                old(self).outputs_v(),
                old(self).wires_v(),
                old(self).tick_state(),
                g,
            ).signals,
            final(self).desync_v() == step_gate_spec(
                old(self).gates_v(),
                old(self).outputs_v(),
                old(self).wires_v(),
                old(self).tick_state(),
                g,
            ).desync,
            final(self).gates_v() == old(self).gates_v(),
            final(self).outputs_v() == old(self).outputs_v(),
            final(self).wires_v() == old(self).wires_v(),
            final(self).owner_v() == old(self).owner_v(),
            final(self).signals_v().dom() == old(self).signals_v().dom(),
            final(self).wf(),
    {
        let d = self.desync_of(g);
        if d > 0 {
            let d2 = d - 1;
            self.desync.insert(g, d2);
            proof {
                Self::lemma_wf_more_signals(*old(self), *self);
                assert(final(self).signals_v().dom() =~= old(self).signals_v().dom());
            }
            return;
        }
        let ghost s0 = self.signals@;
        let ghost gates0 = self.gates@;
        let node = self.gates.get(&g).unwrap();
        let ghost fin = node.fans.inputs@;
        let ghost fout = node.fans.outputs@;
        // Gather the input signals in port order.
        let mut ins: Vec<Signal> = Vec::new();
        let mut i: usize = 0;
        while i < node.fans.inputs.len()
            invariant
                0 <= i <= fin.len(),
                node.fans.inputs@ == fin,
                self.signals@ == s0,
                ins@ == gather_signals(s0, fin.take(i as int)),
            decreases fin.len() - i,
        {
            proof {
                assert(fin.take(i + 1).drop_last() =~= fin.take(i as int));
                assert(fin.take(i + 1).last() == fin[i as int]);
            }
            if let Some(p) = node.fans.inputs[i] {
                if let Some(sig) = self.signals.get(&p) {
                    ins.push(*sig);
                }
            }
            i = i + 1;
        }
        // Gather the output ports and their previous signals.
        let mut outp: Vec<u64> = Vec::new();
        let mut prev: Vec<Signal> = Vec::new();
        let mut j: usize = 0;
        while j < node.fans.outputs.len()
            invariant
                0 <= j <= fout.len(),
                node.fans.outputs@ == fout,
                self.signals@ == s0,
                outp@ == gather_ports(s0, fout.take(j as int)),
                prev@ == gather_signals(s0, fout.take(j as int)),
            decreases fout.len() - j,
        {
            proof {
                assert(fout.take(j + 1).drop_last() =~= fout.take(j as int));
                assert(fout.take(j + 1).last() == fout[j as int]);
            }
            if let Some(p) = node.fans.outputs[j] {
                if let Some(sig) = self.signals.get(&p) {
                    outp.push(p);
                    prev.push(*sig);
                }
            }
            j = j + 1;
        }
        proof {
            assert(fin.take(fin.len() as int) =~= fin);
            assert(fout.take(fout.len() as int) =~= fout);
        }
        // Evaluate the behaviour on the gathered signals.
        let mut kind = node.kind;
        let ghost ins_g = ins@;
        let ghost prev_g = prev@;
        kind.evaluate(&ins, &mut prev);
        let ghost vals = prev@;
        let ghost outpseq = outp@;
        proof {
            lemma_gather_lens(s0, fout);
            lemma_gather_ports_facts(s0, fout);
            assert(vals == gates0[g].kind.spec_out(
                gather_signals(s0, fin),
                gather_signals(s0, fout),
            ));
        }
        // Write the results back and propagate them along the wires.
        let n = outp.len();
        let mut k: usize = 0;
        while k < n
            invariant
                0 <= k <= n,
                n == outpseq.len(),
                vals.len() == outpseq.len(),
                outp@ == outpseq,
                prev@ == vals,
                s0 == old(self).signals_v(),
                old(self).wf(),
                self.wf(),
                self.gates@ == old(self).gates_v(),
                self.outputs@ == old(self).outputs_v(),
                self.wires@ == old(self).wires_v(),
                self.owner@ == old(self).owner_v(),
                self.desync@ == old(self).desync_v(),
                forall|k2: int|
                    0 <= k2 < outpseq.len() ==> old(self).signals_v().contains_key(
                        #[trigger] outpseq[k2],
                    ) && old(self).outputs_v().contains_key(outpseq[k2]),
                self.signals@ == write_outputs(
                    s0,
                    old(self).outputs_v(),
                    old(self).wires_v(),
                    outpseq.take(k as int),
                    vals.take(k as int),
                ),
                self.signals@.dom() == s0.dom(),
            decreases n - k,
        {
            let p = outp[k];
            let s = prev[k];
            proof {
                assert(old(self).signals_v().contains_key(p));
                assert(self.signals@.dom() == old(self).signals_v().dom());
                assert(self.signals@.contains_key(p));
            }
            self.write_port(p, s);
            proof {
                assert(outpseq.take(k + 1).drop_last() =~= outpseq.take(k as int));
                assert(vals.take(k + 1).drop_last() =~= vals.take(k as int));
                assert(outpseq.take(k + 1).last() == outpseq[k as int]);
                assert(vals.take(k + 1).last() == vals[k as int]);
                assert(self.signals@ == write_outputs(
                    s0,
                    old(self).outputs_v(),
                    old(self).wires_v(),
                    outpseq.take(k + 1),
                    vals.take(k + 1),
                ));
            }
            k = k + 1;
        }
        proof {
            assert(outpseq.take(outpseq.len() as int) =~= outpseq);
            assert(vals.take(vals.len() as int) =~= vals);
        }
    }

    /// One full evaluation pass over a compiled order; see [`tick_spec`].
    /// Every listed gate must be registered, and each one's gathered
    /// ports must satisfy what its behaviour demands of them.
    pub fn step_logic(&mut self, order: &Vec<u64>)
        requires
            old(self).wf(),
            forall|k: int|
                0 <= k < order@.len() ==> old(self).gates_v().contains_key(#[trigger] order@[k]),
            forall|k: int|
                0 <= k < order@.len() ==> old(self).gates_v()[#[trigger] order@[k]].kind.eval_requires(
                    gather_signals(
                        old(self).signals_v(),
                        old(self).gates_v()[order@[k]].fans.inputs@,
                    ),
                    gather_signals(
                        old(self).signals_v(),
                        old(self).gates_v()[order@[k]].fans.outputs@,
                    ),
                ),
        ensures
            final(self).signals_v() == tick_spec(
                old(self).gates_v(),
                old(self).outputs_v(),
                old(self).wires_v(),
                old(self).tick_state(),
                order@,
            ).signals,
            final(self).desync_v() == tick_spec(
                old(self).gates_v(),
                old(self).outputs_v(),
                old(self).wires_v(),
                old(self).tick_state(),
                order@,
            ).desync,
            final(self).gates_v() == old(self).gates_v(),
            final(self).outputs_v() == old(self).outputs_v(),
            final(self).wires_v() == old(self).wires_v(),
            final(self).owner_v() == old(self).owner_v(),
            final(self).signals_v().dom() == old(self).signals_v().dom(),
            final(self).wf(),
    {
        let ghost gates0 = self.gates@;
        let ghost outputs0 = self.outputs@;
        let ghost wires0 = self.wires@;
        let ghost st0 = self.tick_state();
        let mut k: usize = 0;
        while k < order.len()
            invariant
                0 <= k <= order@.len(),
                old(self).wf(),
                self.wf(),
                gates0 == old(self).gates_v(),
                outputs0 == old(self).outputs_v(),
                wires0 == old(self).wires_v(),
                st0 == old(self).tick_state(),
                self.gates@ == gates0,
                self.outputs@ == outputs0,
                self.wires@ == wires0,
                self.owner@ == old(self).owner_v(),
                self.signals@ == tick_spec(gates0, outputs0, wires0, st0, order@.take(k as int)).signals,
                self.desync@ == tick_spec(gates0, outputs0, wires0, st0, order@.take(k as int)).desync,
                self.signals@.dom() == old(self).signals_v().dom(),
                forall|k2: int|
                    0 <= k2 < order@.len() ==> old(self).gates_v().contains_key(
                        #[trigger] order@[k2],
                    ),
                forall|k2: int|
                    0 <= k2 < order@.len() ==> old(self).gates_v()[#[trigger] order@[k2]].kind.eval_requires(
                        gather_signals(
                            old(self).signals_v(),
                            old(self).gates_v()[order@[k2]].fans.inputs@,
                        ),
                        gather_signals(
                            old(self).signals_v(),
                            old(self).gates_v()[order@[k2]].fans.outputs@,
                        ),
                    ),
            decreases order@.len() - k,
        {
            let g = order[k];
            proof {
                lemma_eval_requires_dom(
                    gates0[g].kind,
                    old(self).signals_v(),
                    self.signals@,
                    gates0[g].fans.inputs@,
                    gates0[g].fans.outputs@,
                );
            }
            self.step_gate(g);
            proof {
                assert(order@.take(k + 1).drop_last() =~= order@.take(k as int));
                assert(order@.take(k + 1).last() == order@[k as int]);
                assert(self.signals@ == tick_spec(
                    gates0,
                    outputs0,
                    wires0,
                    st0,
                    order@.take(k + 1),
                ).signals);
                assert(self.desync@ == tick_spec(
                    gates0,
                    outputs0,
                    wires0,
                    st0,
                    order@.take(k + 1),
                ).desync);
            }
            k = k + 1;
        }
        proof {
            assert(order@.take(order@.len() as int) =~= order@);
        }
    }

    /// Immediately propagate the signal of an externally driven output
    /// port to its wires and their destination input ports, outside the
    /// normal tick and without evaluating any gate. This is the path for
    /// outputs that need no evaluation, such as interactive controls.
    pub fn propagate_output(&mut self, output: u64)
        requires
            old(self).wf(),
            old(self).outputs_v().contains_key(output),
            old(self).signals_v().contains_key(output),
        ensures
            final(self).signals_v() == write_one(
                old(self).signals_v(),
                old(self).outputs_v(),
                old(self).wires_v(),
                output,
                old(self).signals_v()[output],
            ),
            final(self).gates_v() == old(self).gates_v(),
            final(self).outputs_v() == old(self).outputs_v(),
            final(self).wires_v() == old(self).wires_v(),
            final(self).owner_v() == old(self).owner_v(),
            final(self).desync_v() == old(self).desync_v(),
            final(self).signals_v().dom() == old(self).signals_v().dom(),
            final(self).wf(),
    {
        let s = *self.signals.get(&output).unwrap();
        proof {
            assert(old(self).signals_v().insert(output, s) =~= old(self).signals_v());
        }
        self.write_port(output, s);
    }

    /// The outgoing wires of the output port `p` of `gate`, as wire
    /// records with both gate endpoints resolved.
    pub open spec fn wires_of_port(self, gate: u64, p: u64) -> Seq<WireData> {
        self.outputs_v()[p].wires@.map_values(
            |w: u64|
                WireData {
                    entity: w,
                    from: p,
                    from_gate: gate,
                    to: self.wires_v()[w].to,
                    to_gate: self.owner_v()[self.wires_v()[w].to],
                },
        )
    }

    /// The outgoing wires of `gate` over the given output ports, in
    /// order.
    pub open spec fn outgoing_data(self, gate: u64, ports: Seq<u64>) -> Seq<WireData>
        decreases ports.len(),
    {
        if ports.len() == 0 {
            Seq::empty()
        } else {
            self.outgoing_data(gate, ports.drop_last()) + self.wires_of_port(gate, ports.last())
        }
    }

    /// All outgoing wires of `gate`, over its filled output slots in
    /// port order.
    pub open spec fn outgoing_of(self, gate: u64) -> Seq<WireData> {
        self.outgoing_data(gate, some_of(self.gates_v()[gate].fans.outputs@))
    }

    /// Collect the outgoing wire records of a registered gate: for each
    /// filled output slot, each wire of its set, with the destination
    /// port's owning gate resolved.
    pub fn extract_outgoing_wires(&self, gate: u64) -> (r: Vec<WireData>)
        requires
            self.wf(),
            self.gates_v().contains_key(gate),
        ensures
            r@ == self.outgoing_of(gate),
    {
        let node = self.gates.get(&gate).unwrap();
        let ports = node.fans.some_outputs();
        proof {
            lemma_some_of_facts(node.fans.outputs@);
        }
        let mut r: Vec<WireData> = Vec::new();
        let mut i: usize = 0;
        while i < ports.len()
            invariant
                0 <= i <= ports@.len(),
                self.wf(),
                self.gates_v().contains_key(gate),
                ports@ == some_of(self.gates_v()[gate].fans.outputs@),
                forall|k: int|
                    0 <= k < ports@.len() ==> exists|i2: int|
                        0 <= i2 < self.gates_v()[gate].fans.outputs@.len() && self.gates_v(
                        )[gate].fans.outputs@[i2] == Some(#[trigger] ports@[k]),
                r@ == self.outgoing_data(gate, ports@.take(i as int)),
            decreases ports@.len() - i,
        {
            let p = ports[i];
            proof {
                let i2 = choose|i2: int|
                    0 <= i2 < self.gates_v()[gate].fans.outputs@.len() && self.gates_v(
                    )[gate].fans.outputs@[i2] == Some(p);
                assert(self.gates_v()[gate].fans.outputs@[i2] == Some(p));
                assert(self.outputs_v().contains_key(p));
            }
            let ow = self.outputs.get(&p).unwrap();
            let ghost ws = ow.wires@;
            let mut t: usize = 0;
            while t < ow.wires.len()
                invariant
                    0 <= t <= ws.len(),
                    ow.wires@ == ws,
                    self.wf(),
                    self.outputs_v().contains_key(p),
                    ws == self.outputs_v()[p].wires@,
                    r@ == self.outgoing_data(gate, ports@.take(i as int)) + self.wires_of_port(
                        gate,
                        p,
                    ).take(t as int),
                decreases ws.len() - t,
            {
                let w = ow.wires[t];
                proof {
                    assert(self.outputs_v()[p].wires@[t as int] == w);
                }
                let wr = *self.wires.get(&w).unwrap();
                let tg = *self.owner.get(&wr.to).unwrap();
                r.push(
                    WireData { entity: w, from: p, from_gate: gate, to: wr.to, to_gate: tg },
                );
                proof {
                    assert(self.wires_of_port(gate, p)[t as int] == WireData {
                        entity: w,
                        from: p,
                        from_gate: gate,
                        to: wr.to,
                        to_gate: tg,
                    });
                    assert(self.wires_of_port(gate, p).take(t + 1) =~= self.wires_of_port(
                        gate,
                        p,
                    ).take(t as int).push(self.wires_of_port(gate, p)[t as int]));
                    assert(r@ =~= self.outgoing_data(gate, ports@.take(i as int))
                        + self.wires_of_port(gate, p).take(t + 1));
                }
                t = t + 1;
            }
            proof {
                let wp = self.wires_of_port(gate, p);
                assert(wp.take(wp.len() as int) =~= wp);
                assert(ports@.take(i + 1).drop_last() =~= ports@.take(i as int));
                assert(ports@.take(i + 1).last() == ports@[i as int]);
            }
            i = i + 1;
        }
        proof {
            assert(ports@.take(ports@.len() as int) =~= ports@);
        }
        r
    }

    /// Register a gate and all of its outgoing wires in the evaluation
    /// graph, and recompile the evaluation order.
    pub fn add_gate_to_graph(&self, graph: &mut LogicGraph, gate: u64)
        requires
            self.wf(),
            self.gates_v().contains_key(gate),
        ensures
            final(graph).nodes() == nodes_with_wires(
                old(graph).nodes().insert(gate),
                self.outgoing_of(gate),
            ),
            final(graph).edges() == edges_with_wires(old(graph).edges(), self.outgoing_of(gate)),
            final(graph).order_ok(),
    {
        let wds = self.extract_outgoing_wires(gate);
        graph.add_gate(gate);
        let mut k: usize = 0;
        while k < wds.len()
            invariant
                0 <= k <= wds@.len(),
                wds@ == self.outgoing_of(gate),
                graph.nodes() == nodes_with_wires(
                    old(graph).nodes().insert(gate),
                    wds@.take(k as int),
                ),
                graph.edges() == edges_with_wires(old(graph).edges(), wds@.take(k as int)),
            decreases wds@.len() - k,
        {
            let wd = wds[k];
            graph.add_wire(wd.from_gate, wd.to_gate, wd.entity);
            proof {
                assert(wds@.take(k + 1).drop_last() =~= wds@.take(k as int));
                assert(wds@.take(k + 1).last() == wds@[k as int]);
            }
            k = k + 1;
        }
        proof {
            assert(wds@.take(wds@.len() as int) =~= wds@);
        }
        graph.compile();
    }

    /// Remove a gate from the evaluation graph with all its incident
    /// edges, recompile the order, and take the removed incoming wires
    /// out of the wire sets of the output ports they leave. Returns the
    /// removed incoming wires as (wire, from gate, to gate). Every
    /// incoming edge label must name a registered wire whose source port
    /// carries a wire set; anything else is a fatal lookup fault.
    pub fn remove_gate_from_graph(&mut self, graph: &mut LogicGraph, gate: u64) -> (r: Vec<
        (u64, u64, u64),
    >)
        requires
            old(self).wf(),
            forall|a: u64|
                old(graph).edges().contains_key((a, gate)) ==> old(self).wires_v().contains_key(
                    #[trigger] old(graph).edges()[(a, gate)],
                ) && old(self).outputs_v().contains_key(
                    old(self).wires_v()[old(graph).edges()[(a, gate)]].from,
                ),
        ensures
            final(graph).nodes() == old(graph).nodes().remove(gate),
            forall|e: (u64, u64)| #[trigger]
                final(graph).edges().contains_key(e) <==> old(graph).edges().contains_key(e) && e.0
                    != gate && e.1 != gate,
            forall|e: (u64, u64)| #[trigger]
                final(graph).edges().contains_key(e) ==> final(graph).edges()[e] == old(graph).edges()[e],
            final(graph).order_ok(),
            forall|i: int|
                0 <= i < r@.len() ==> #[trigger] r@[i].2 == gate && old(graph).edges().contains_key((r@[i].1, gate)) && old(graph).edges()[(r@[i].1, gate)]
                    == r@[i].0,
            forall|a: u64| #[trigger]
                old(graph).edges().contains_key((a, gate)) ==> exists|i: int|
                    0 <= i < r@.len() && r@[i] == (old(graph).edges()[(a, gate)], a, gate),
            final(self).gates_v() == old(self).gates_v(),
            final(self).signals_v() == old(self).signals_v(),
            final(self).wires_v() == old(self).wires_v(),
            final(self).owner_v() == old(self).owner_v(),
            final(self).desync_v() == old(self).desync_v(),
            forall|p: u64| #[trigger]
                final(self).outputs_v().contains_key(p) == old(self).outputs_v().contains_key(p),
            forall|p: u64, x: u64|
                #![trigger final(self).outputs_v()[p].wires@.contains(x)]
                old(self).outputs_v().contains_key(p) ==> (final(self).outputs_v()[p].wires@.contains(x) <==> (old(self).outputs_v()[p].wires@.contains(
                    x,
                ) && !(edge_label_into(old(graph).edges(), gate, x) && old(self).wires_v().contains_key(x) && old(self).wires_v()[x].from == p))),
            final(self).wf(),
    {
        proof {
            assert(*graph == *old(graph));
        }
        let inc = graph.incoming_wires(gate);
        let ghost edges0 = old(graph).edges();
        proof {
            assert forall|i: int|
                #![trigger inc@[i]]
                0 <= i < inc@.len() implies inc@[i].2 == gate && edges0.contains_key(
                (inc@[i].1, gate),
            ) && edges0[(inc@[i].1, gate)] == inc@[i].0 by {}
        }
        graph.remove_gate(gate);
        graph.compile();
        let mut k: usize = 0;
        while k < inc.len()
            invariant
                0 <= k <= inc@.len(),
                old(self).wf(),
                self.wf(),
                forall|i: int|
                    #![trigger inc@[i]]
                    0 <= i < inc@.len() ==> inc@[i].2 == gate && edges0.contains_key(
                        (inc@[i].1, gate),
                    ) && edges0[(inc@[i].1, gate)] == inc@[i].0,
                forall|a: u64| #[trigger]
                    edges0.contains_key((a, gate)) ==> exists|i: int|
                        0 <= i < inc@.len() && inc@[i] == (edges0[(a, gate)], a, gate),
                forall|a: u64|
                    edges0.contains_key((a, gate)) ==> old(self).wires_v().contains_key(
                        #[trigger] edges0[(a, gate)],
                    ) && old(self).outputs_v().contains_key(
                        old(self).wires_v()[edges0[(a, gate)]].from,
                    ),
                self.gates_v() == old(self).gates_v(),
                self.signals_v() == old(self).signals_v(),
                self.wires_v() == old(self).wires_v(),
                self.owner_v() == old(self).owner_v(),
                self.desync_v() == old(self).desync_v(),
                forall|p: u64| #[trigger]
                    self.outputs_v().contains_key(p) == old(self).outputs_v().contains_key(p),
                forall|p: u64, x: u64|
                    #![trigger self.outputs_v()[p].wires@.contains(x)]
                    old(self).outputs_v().contains_key(p) ==> (self.outputs_v()[p].wires@.contains(x)
                        <==> (old(self).outputs_v()[p].wires@.contains(x) && !(listed_id(
                        inc@.take(k as int),
                        x,
                    ) && old(self).wires_v().contains_key(x) && old(self).wires_v()[x].from == p))),
            decreases inc@.len() - k,
        {
            let (w, _a, _g) = inc[k];
            proof {
                assert(inc@[k as int].0 == w);
                assert(edges0.contains_key((inc@[k as int].1, gate)));
            }
            let wr = *self.wires.get(&w).unwrap();
            let ghost before = *self;
            self.remove_output_wire(wr.from, w);
            proof {
                assert forall|p: u64|
                    #[trigger] self.outputs_v().contains_key(p) == old(
                    self,
                ).outputs_v().contains_key(p) by {
                    assert(before.outputs_v().contains_key(p) == old(
                        self,
                    ).outputs_v().contains_key(p));
                }
                assert forall|p: u64, x: u64|
                    old(self).outputs_v().contains_key(p) implies (
                #[trigger] self.outputs_v()[p].wires@.contains(x) <==> (old(self).outputs_v()[p].wires@.contains(x) && !(listed_id(inc@.take(k + 1), x) && old(self).wires_v().contains_key(x) && old(self).wires_v()[x].from == p))) by {
                    lemma_take_listed(inc@, k as int, x);
                    assert(before.outputs_v().contains_key(p));
                    assert(before.outputs_v()[p].wires@.contains(x) <==> (old(
                        self,
                    ).outputs_v()[p].wires@.contains(x) && !(listed_id(inc@.take(k as int), x)
                        && old(self).wires_v().contains_key(x) && old(self).wires_v()[x].from
                        == p)));
                    if p == wr.from {
                        assert(self.outputs_v()[p].wires@.contains(x) <==> (
                        before.outputs_v()[p].wires@.contains(x) && x != w));
                        assert(old(self).wires_v().contains_key(w) && old(self).wires_v()[w].from
                            == p);
                    } else {
                        assert(self.outputs_v()[p] == before.outputs_v()[p]);
                    }
                }
            }
            k = k + 1;
        }
        proof {
            assert(inc@.take(inc@.len() as int) =~= inc@);
            assert forall|p: u64, x: u64|
                old(self).outputs_v().contains_key(p) implies (
            #[trigger] self.outputs_v()[p].wires@.contains(x) <==> (old(self).outputs_v()[p].wires@.contains(x) && !(edge_label_into(edges0, gate, x) && old(self).wires_v().contains_key(x) && old(self).wires_v()[x].from == p))) by {
                if listed_id(inc@, x) {
                    let i = choose|i: int| 0 <= i < inc@.len() && (#[trigger] inc@[i]).0 == x;
                    assert(edges0.contains_key((inc@[i].1, gate)) && edges0[(inc@[i].1, gate)]
                        == x);
                }
                if edge_label_into(edges0, gate, x) {
                    let a = choose|a: u64| #[trigger]
                        edges0.contains_key((a, gate)) && edges0[(a, gate)] == x;
                    let i = choose|i: int|
                        0 <= i < inc@.len() && #[trigger] inc@[i] == (edges0[(a, gate)], a, gate);
                    assert(inc@[i].0 == x);
                }
            }
        }
        inc
    }

    /// Register an existing wire in the evaluation graph: its identifier
    /// joins its source port's wire set, an edge is added between the
    /// owning gates, and the order is recompiled. The wire, its source
    /// port's wire set and both port owners must be registered; anything
    /// else is a fatal lookup fault.
    pub fn add_wire_to_graph(&mut self, graph: &mut LogicGraph, wire_entity: u64)
        requires
            old(self).wf(),
            old(self).wires_v().contains_key(wire_entity),
            old(self).signals_v().contains_key(wire_entity),
            old(self).outputs_v().contains_key(old(self).wires_v()[wire_entity].from),
            old(self).owner_v().contains_key(old(self).wires_v()[wire_entity].from),
            old(self).owner_v().contains_key(old(self).wires_v()[wire_entity].to),
        ensures
            final(graph).nodes() == old(graph).nodes().insert(
                old(self).owner_v()[old(self).wires_v()[wire_entity].from],
            ).insert(old(self).owner_v()[old(self).wires_v()[wire_entity].to]),
            final(graph).edges() == old(graph).edges().insert(
                (
                    old(self).owner_v()[old(self).wires_v()[wire_entity].from],
                    old(self).owner_v()[old(self).wires_v()[wire_entity].to],
                ),
                wire_entity,
            ),
            final(graph).order_ok(),
            forall|p: u64| #[trigger]
                final(self).outputs_v().contains_key(p) == old(self).outputs_v().contains_key(p),
            forall|p: u64|
                p != old(self).wires_v()[wire_entity].from && old(self).outputs_v().contains_key(p) ==> final(self).outputs_v()[p] == old(self).outputs_v()[p],
            final(self).outputs_v()[old(self).wires_v()[wire_entity].from].wires@ == if old(self).outputs_v()[old(self).wires_v()[wire_entity].from].wires@.contains(wire_entity) {
                old(self).outputs_v()[old(self).wires_v()[wire_entity].from].wires@
            } else {
                old(self).outputs_v()[old(self).wires_v()[wire_entity].from].wires@.push(
                    wire_entity,
                )
            },
            final(self).gates_v() == old(self).gates_v(),
            final(self).signals_v() == old(self).signals_v(),
            final(self).wires_v() == old(self).wires_v(),
            final(self).owner_v() == old(self).owner_v(),
            final(self).desync_v() == old(self).desync_v(),
            final(self).wf(),
    {
        let wr = *self.wires.get(&wire_entity).unwrap();
        self.insert_output_wire(wr.from, wire_entity);
        let from_gate = *self.owner.get(&wr.from).unwrap();
        let to_gate = *self.owner.get(&wr.to).unwrap();
        graph.add_wire(from_gate, to_gate, wire_entity);
        graph.compile();
    }

    /// Remove an existing wire from the evaluation graph: its identifier
    /// leaves its source port's wire set, the edge between the owning
    /// gates is removed, and the order is recompiled. The wire, its
    /// source port's wire set and both port owners must be registered;
    /// anything else is a fatal lookup fault.
    pub fn remove_wire_from_graph(&mut self, graph: &mut LogicGraph, wire_entity: u64)
        requires
            old(self).wf(),
            old(self).wires_v().contains_key(wire_entity),
            old(self).outputs_v().contains_key(old(self).wires_v()[wire_entity].from),
            old(self).owner_v().contains_key(old(self).wires_v()[wire_entity].from),
            old(self).owner_v().contains_key(old(self).wires_v()[wire_entity].to),
        ensures
            final(graph).nodes() == old(graph).nodes(),
            final(graph).edges() == old(graph).edges().remove(
                (
                    old(self).owner_v()[old(self).wires_v()[wire_entity].from],
                    old(self).owner_v()[old(self).wires_v()[wire_entity].to],
                ),
            ),
            final(graph).order_ok(),
            forall|p: u64| #[trigger]
                final(self).outputs_v().contains_key(p) == old(self).outputs_v().contains_key(p),
            forall|p: u64|
                p != old(self).wires_v()[wire_entity].from && old(self).outputs_v().contains_key(p) ==> final(self).outputs_v()[p] == old(self).outputs_v()[p],
            forall|x: u64|
                #[trigger] final(self).outputs_v()[old(self).wires_v()[wire_entity].from].wires@.contains(x) <==> (old(self).outputs_v()[old(self).wires_v()[wire_entity].from].wires@.contains(x) && x != wire_entity),
            final(self).gates_v() == old(self).gates_v(),
            final(self).signals_v() == old(self).signals_v(),
            final(self).wires_v() == old(self).wires_v(),
            final(self).owner_v() == old(self).owner_v(),
            final(self).desync_v() == old(self).desync_v(),
            final(self).wf(),
    {
        let wr = *self.wires.get(&wire_entity).unwrap();
        self.remove_output_wire(wr.from, wire_entity);
        let from_gate = *self.owner.get(&wr.from).unwrap();
        let to_gate = *self.owner.get(&wr.to).unwrap();
        graph.remove_wire(from_gate, to_gate);
        graph.compile();
    }
}

} // verus!

