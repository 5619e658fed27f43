use logic_tools::circuit::Circuit;
use logic_tools::gates::{AndGate, Battery, GateKind, NotGate};
use logic_tools::graph::LogicGraph;
use logic_tools::schedule::LogicTime;
use logic_tools::signal::Signal;

fn on() -> Signal {
    Signal::Digital(true)
}

fn off() -> Signal {
    Signal::Digital(false)
}

fn not_gate() -> GateKind {
    GateKind::Not(NotGate)
}

fn and_gate() -> GateKind {
    GateKind::And(AndGate)
}

fn battery(signal: Signal) -> GateKind {
    GateKind::Battery(Battery::new(signal))
}

fn position(order: &[u64], gate: u64) -> usize {
    order
        .iter()
        .position(|&g| g == gate)
        .expect("gate missing from compiled order")
}

/// A NOT gate wired output-to-input to itself compiles into a single
/// strongly connected group and oscillates with period two.
#[test]
fn self_feedback_not_gate_oscillates() {
    let mut circuit = Circuit::new();
    let mut graph = LogicGraph::new();
    circuit.add_gate(1, not_gate(), &vec![10], &vec![11]);
    circuit.add_wire(100, 11, 10);
    circuit.add_gate_to_graph(&mut graph, 1);

    assert_eq!(graph.component_groups().len(), 1);
    assert_eq!(graph.sorted().len(), 1);

    circuit.step_logic(graph.sorted());
    let s1 = circuit.get_signal(10).unwrap();
    circuit.step_logic(graph.sorted());
    let s2 = circuit.get_signal(10).unwrap();
    circuit.step_logic(graph.sorted());
    let s3 = circuit.get_signal(10).unwrap();

    assert_eq!(s1, on());
    assert_eq!(s2, off());
    assert_eq!(s3, s1);
    assert_ne!(s1, s2);
}

/// A loop of two NOT gates compiles into one strongly connected group
/// and settles into a stable assignment within a tick.
#[test]
fn two_gate_feedback_loop_compiles_to_one_group() {
    let mut circuit = Circuit::new();
    let mut graph = LogicGraph::new();
    circuit.add_gate(1, not_gate(), &vec![10], &vec![11]);
    circuit.add_gate(2, not_gate(), &vec![20], &vec![21]);
    circuit.add_wire(100, 11, 20);
    circuit.add_wire(101, 21, 10);
    circuit.add_gate_to_graph(&mut graph, 1);
    circuit.add_gate_to_graph(&mut graph, 2);

    assert_eq!(graph.component_groups().len(), 1);
    assert_eq!(graph.component_groups()[0].len(), 2);
    assert_eq!(graph.sorted().len(), 2);

    let snapshot = |c: &Circuit| {
        (
            c.get_signal(10).unwrap(),
            c.get_signal(11).unwrap(),
            c.get_signal(20).unwrap(),
            c.get_signal(21).unwrap(),
        )
    };
    circuit.step_logic(graph.sorted());
    let s1 = snapshot(&circuit);
    circuit.step_logic(graph.sorted());
    let s2 = snapshot(&circuit);
    circuit.step_logic(graph.sorted());
    let s3 = snapshot(&circuit);
    // the two inverters disagree and the assignment is stable
    assert!(matches!(s1.1, Signal::Digital(_)));
    assert_ne!(s1.1, s1.3);
    assert_eq!(s2, s1);
    assert_eq!(s3, s2);
}

/// A diamond of dependencies compiles into an order where the source
/// precedes both branches and every branch precedes the sink.
#[test]
fn diamond_dependency_orders_topologically() {
    let mut circuit = Circuit::new();
    let mut graph = LogicGraph::new();
    circuit.add_gate(1, and_gate(), &vec![10], &vec![11]);
    circuit.add_gate(2, and_gate(), &vec![20], &vec![21]);
    circuit.add_gate(3, and_gate(), &vec![30], &vec![31]);
    circuit.add_gate(4, and_gate(), &vec![40, 41], &vec![42]);
    circuit.add_wire(100, 11, 20);
    circuit.add_wire(101, 11, 30);
    circuit.add_wire(102, 21, 40);
    circuit.add_wire(103, 31, 41);
    circuit.add_gate_to_graph(&mut graph, 1);
    circuit.add_gate_to_graph(&mut graph, 2);
    circuit.add_gate_to_graph(&mut graph, 3);
    circuit.add_gate_to_graph(&mut graph, 4);

    let order = graph.sorted();
    assert_eq!(order.len(), 4);
    assert_eq!(graph.component_groups().len(), 4);
    assert!(position(order, 1) < position(order, 2));
    assert!(position(order, 1) < position(order, 3));
    assert!(position(order, 2) < position(order, 4));
    assert!(position(order, 3) < position(order, 4));
}

/// Signals travel one wire crossing per tick segment: a battery feeding
/// an AND gate drives the downstream output within one pass.
#[test]
fn battery_drives_downstream_gate() {
    let mut circuit = Circuit::new();
    let mut graph = LogicGraph::new();
    circuit.add_gate(1, battery(on()), &vec![], &vec![11]);
    circuit.add_gate(2, and_gate(), &vec![20], &vec![21]);
    circuit.add_wire(100, 11, 20);
    circuit.add_gate_to_graph(&mut graph, 1);
    circuit.add_gate_to_graph(&mut graph, 2);

    circuit.step_logic(graph.sorted());
    assert_eq!(circuit.get_signal(11).unwrap(), on());
    assert_eq!(circuit.get_signal(100).unwrap(), on());
    assert_eq!(circuit.get_signal(20).unwrap(), on());
    assert_eq!(circuit.get_signal(21).unwrap(), on());
}

/// Removing a gate removes its incident wires from the upstream wire
/// sets: re-running propagation writes nothing stale to the removed
/// gate's former inputs.
#[test]
fn removed_gate_gets_no_stale_writes() {
    let mut circuit = Circuit::new();
    let mut graph = LogicGraph::new();
    circuit.add_gate(1, battery(on()), &vec![], &vec![11]);
    circuit.add_gate(2, and_gate(), &vec![20], &vec![21]);
    circuit.add_wire(100, 11, 20);
    circuit.add_gate_to_graph(&mut graph, 1);
    circuit.add_gate_to_graph(&mut graph, 2);
    circuit.step_logic(graph.sorted());
    assert_eq!(circuit.get_signal(20).unwrap(), on());

    let removed = circuit.remove_gate_from_graph(&mut graph, 2);
    assert_eq!(removed.len(), 1);
    assert_eq!(removed[0], (100, 1, 2));
    assert!(!graph.contains_gate(2));
    assert_eq!(graph.sorted().len(), 1);

    // drive the battery output low and propagate: the former successor
    // keeps its old signal, no stale write reaches it
    circuit.set_signal(11, off());
    circuit.propagate_output(11);
    assert_eq!(circuit.get_signal(20).unwrap(), on());
    assert_eq!(circuit.get_signal(100).unwrap(), on());

    // a full pass over the remaining order writes nothing there either
    circuit.step_logic(graph.sorted());
    assert_eq!(circuit.get_signal(20).unwrap(), on());
}

/// An externally driven output propagates to its wire and downstream
/// input port without any scheduler tick, and without its owner being
/// in the compiled order.
#[test]
fn no_eval_output_propagates_immediately() {
    let mut circuit = Circuit::new();
    let mut graph = LogicGraph::new();
    circuit.add_gate(2, and_gate(), &vec![20], &vec![21]);
    circuit.add_gate_to_graph(&mut graph, 2);
    // an output-only control, never registered in the graph
    circuit.add_gate(5, battery(off()), &vec![], &vec![50]);
    circuit.add_wire(200, 50, 20);

    circuit.set_signal(50, on());
    circuit.propagate_output(50);
    assert_eq!(circuit.get_signal(200).unwrap(), on());
    assert_eq!(circuit.get_signal(20).unwrap(), on());

    // the path is idempotent
    circuit.propagate_output(50);
    assert_eq!(circuit.get_signal(20).unwrap(), on());
}

/// Wires added or removed by identifier keep the graph and the wire
/// sets in sync.
#[test]
fn wire_registration_by_entity() {
    let mut circuit = Circuit::new();
    let mut graph = LogicGraph::new();
    circuit.add_gate(1, battery(on()), &vec![], &vec![11]);
    circuit.add_gate(2, and_gate(), &vec![20], &vec![21]);
    circuit.add_gate_to_graph(&mut graph, 1);
    circuit.add_gate_to_graph(&mut graph, 2);
    circuit.add_wire(100, 11, 20);
    circuit.add_wire_to_graph(&mut graph, 100);

    circuit.step_logic(graph.sorted());
    assert_eq!(circuit.get_signal(20).unwrap(), on());

    circuit.remove_wire_from_graph(&mut graph, 100);
    circuit.set_signal(11, off());
    circuit.propagate_output(11);
    assert_eq!(circuit.get_signal(20).unwrap(), on());
}

/// A desync counter defers a gate's participation for an even number of
/// ticks, then expires.
#[test]
fn desync_defers_evaluation() {
    let mut circuit = Circuit::new();
    let mut graph = LogicGraph::new();
    circuit.add_gate(1, battery(on()), &vec![], &vec![11]);
    circuit.add_gate(2, and_gate(), &vec![20], &vec![21]);
    circuit.add_wire(100, 11, 20);
    circuit.add_gate_to_graph(&mut graph, 1);
    circuit.add_gate_to_graph(&mut graph, 2);

    circuit.add_desync(2);
    assert_eq!(circuit.desync_of(2), 2);

    circuit.step_logic(graph.sorted());
    assert_eq!(circuit.get_signal(20).unwrap(), on());
    assert_eq!(circuit.get_signal(21).unwrap(), Signal::Undefined);
    assert_eq!(circuit.desync_of(2), 1);

    circuit.step_logic(graph.sorted());
    assert_eq!(circuit.get_signal(21).unwrap(), Signal::Undefined);
    assert_eq!(circuit.desync_of(2), 0);

    circuit.step_logic(graph.sorted());
    assert_eq!(circuit.get_signal(21).unwrap(), on());
}

/// The fixed-step accumulator buys exactly one evaluation pass per full
/// timestep and keeps the remainder.
#[test]
fn scheduler_spends_whole_timesteps() {
    let mut circuit = Circuit::new();
    let mut graph = LogicGraph::new();
    circuit.add_gate(1, battery(on()), &vec![], &vec![11]);
    circuit.add_gate(2, and_gate(), &vec![20], &vec![21]);
    circuit.add_wire(100, 11, 20);
    circuit.add_gate_to_graph(&mut graph, 1);
    circuit.add_gate_to_graph(&mut graph, 2);

    let mut time = LogicTime::new(1000);
    let steps = time.advance(&mut circuit, &graph, 2500);
    assert_eq!(steps, 2);
    assert_eq!(time.overstep(), 500);
    assert_eq!(time.elapsed(), 2000);
    assert_eq!(circuit.get_signal(21).unwrap(), on());

    let steps = time.advance(&mut circuit, &graph, 499);
    assert_eq!(steps, 0);
    assert_eq!(time.overstep(), 999);

    let steps = time.advance(&mut circuit, &graph, 1);
    assert_eq!(steps, 1);
    assert_eq!(time.overstep(), 0);
    assert_eq!(time.elapsed(), 3000);
    assert_eq!(time.delta(), 1000);
}

/// The clock pieces behave as documented on their own.
#[test]
fn clock_accumulate_expend_discard() {
    let mut time = LogicTime::new(250);
    assert_eq!(time.timestep(), 250);
    time.accumulate(600);
    assert_eq!(time.overstep(), 600);
    assert!(time.expend());
    assert_eq!(time.overstep(), 350);
    assert_eq!(time.elapsed(), 250);
    time.discard_overstep(100);
    assert_eq!(time.overstep(), 250);
    time.discard_overstep(10_000);
    assert_eq!(time.overstep(), 0);
    assert!(!time.expend());
    time.set_timestep(100);
    assert_eq!(time.timestep(), 100);
}
