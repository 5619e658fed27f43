use logic_tools::circuit::{Circuit, GateFan, LogicGateFans, Wire};
use logic_tools::gates::{AndGate, Battery, GateKind};
use logic_tools::graph::LogicGraph;
use logic_tools::signal::Signal;

#[test]
fn fan_lists_build_in_order() {
    let fans = LogicGateFans::new()
        .with_input(Some(10))
        .with_input(None)
        .with_output(Some(20));
    assert_eq!(fans.input_len(), 2);
    assert_eq!(fans.output_len(), 1);
    assert_eq!(fans.some_inputs(), vec![10]);
    assert_eq!(fans.some_outputs(), vec![20]);

    let mut fans = fans;
    fans.resize_inputs(4);
    assert_eq!(fans.input_len(), 4);
    assert_eq!(fans.some_inputs(), vec![10]);
    fans.resize_outputs(0);
    assert_eq!(fans.output_len(), 0);
    assert_eq!(fans.some_outputs(), Vec::<u64>::new());
}

#[test]
fn fan_direction_markers() {
    assert!(GateFan::Input.is_input());
    assert!(!GateFan::Input.is_output());
    assert!(GateFan::Output.is_output());
    assert!(!GateFan::Output.is_input());
}

#[test]
fn wire_endpoints() {
    let wire = Wire::new(11, 20);
    assert_eq!(wire.from, 11);
    assert_eq!(wire.to, 20);
}

#[test]
fn outgoing_wires_resolve_both_gates() {
    let mut circuit = Circuit::new();
    circuit.add_gate(1, GateKind::Battery(Battery::new(Signal::Digital(true))), &vec![], &vec![11]);
    circuit.add_gate(2, GateKind::And(AndGate), &vec![20], &vec![21]);
    circuit.add_gate(3, GateKind::And(AndGate), &vec![30], &vec![31]);
    circuit.add_wire(100, 11, 20);
    circuit.add_wire(101, 11, 30);

    let out = circuit.extract_outgoing_wires(1);
    assert_eq!(out.len(), 2);
    assert_eq!(out[0].id(), 100);
    assert_eq!(out[0].input(), 11);
    assert_eq!(out[0].output(), 20);
    assert_eq!(out[0].from_gate, 1);
    assert_eq!(out[0].to_gate, 2);
    assert_eq!(out[1].entity, 101);
    assert_eq!(out[1].to_gate, 3);

    assert_eq!(circuit.get_wire(100), Some(Wire::new(11, 20)));
    assert_eq!(circuit.get_wire(999), None);
}

#[test]
fn graph_edits_by_identifier() {
    let mut graph = LogicGraph::new();
    assert_eq!(graph.sorted().len(), 0);
    graph.add_gate(1);
    graph.add_gate(2);
    graph.add_wire(1, 2, 100);
    graph.compile();
    assert!(graph.contains_gate(1));
    assert!(graph.contains_gate(2));
    assert_eq!(graph.sorted().len(), 2);
    assert_eq!(graph.incoming_wires(2), vec![(100, 1, 2)]);
    assert_eq!(graph.outgoing_wires(1), vec![(100, 1, 2)]);
    assert_eq!(graph.incoming_wires(1), Vec::<(u64, u64, u64)>::new());

    graph.remove_wire(1, 2);
    graph.compile();
    assert_eq!(graph.incoming_wires(2), Vec::<(u64, u64, u64)>::new());
    graph.remove_gate(2);
    graph.compile();
    assert!(!graph.contains_gate(2));
    assert_eq!(graph.sorted(), &vec![1]);

    let default_graph = LogicGraph::default();
    assert_eq!(default_graph.sorted().len(), 0);
}

#[test]
fn desync_counters_accumulate_in_even_steps() {
    let mut circuit = Circuit::new();
    assert_eq!(circuit.desync_of(7), 0);
    circuit.add_desync(7);
    assert_eq!(circuit.desync_of(7), 2);
    circuit.add_desync(7);
    assert_eq!(circuit.desync_of(7), 4);
}

#[test]
fn signals_store_reads_back() {
    let mut circuit = Circuit::new();
    assert_eq!(circuit.get_signal(1), None);
    circuit.set_signal(1, Signal::Digital(true));
    assert_eq!(circuit.get_signal(1), Some(Signal::Digital(true)));
    circuit.set_signal(1, Signal::Undefined);
    assert_eq!(circuit.get_signal(1), Some(Signal::Undefined));
}
