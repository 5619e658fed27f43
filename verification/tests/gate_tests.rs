use logic_tools::gates::{
    AndGate, Battery, GateKind, LogicGate, LogicNode, NotGate, OrGate, XorGate,
};
use logic_tools::signal::{Signal, SignalExt};

fn bits(v: f32) -> Signal {
    Signal::Analog(v.to_bits())
}

fn digital(values: &[bool]) -> Vec<Signal> {
    let mut v = Vec::new();
    for &b in values {
        v.push(Signal::Digital(b));
    }
    v
}

#[test]
fn and_gate_truth_table() {
    let mut gate = AndGate;
    // both output ports, if multiple, receive the same value
    let mut outputs = vec![Signal::Undefined, Signal::Undefined];
    gate.evaluate(&digital(&[true, true]), &mut outputs);
    assert_eq!(outputs, vec![Signal::Digital(true), Signal::Digital(true)]);
    gate.evaluate(&digital(&[true, false]), &mut outputs);
    assert_eq!(outputs, vec![Signal::Digital(false), Signal::Digital(false)]);
    gate.evaluate(&digital(&[false, false]), &mut outputs);
    assert_eq!(outputs, vec![Signal::Digital(false), Signal::Digital(false)]);
    // an AND over no inputs is vacuously true
    gate.evaluate(&Vec::new(), &mut outputs);
    assert_eq!(outputs, vec![Signal::Digital(true), Signal::Digital(true)]);
}

#[test]
fn xor_gate_counts_odd() {
    let mut gate = XorGate;
    let mut outputs = vec![Signal::Undefined];
    gate.evaluate(&digital(&[true, false, true]), &mut outputs);
    assert_eq!(outputs, vec![Signal::Digital(false)]);
    gate.evaluate(&digital(&[true, false, false]), &mut outputs);
    assert_eq!(outputs, vec![Signal::Digital(true)]);
    gate.evaluate(&digital(&[true, true, true]), &mut outputs);
    assert_eq!(outputs, vec![Signal::Digital(true)]);
    gate.evaluate(&digital(&[false, false]), &mut outputs);
    assert_eq!(outputs, vec![Signal::Digital(false)]);
}

#[test]
fn not_gate_inverts_conjunction() {
    let mut gate = NotGate;
    let mut outputs = vec![Signal::Undefined];
    gate.evaluate(&digital(&[true]), &mut outputs);
    assert_eq!(outputs, vec![Signal::Digital(false)]);
    gate.evaluate(&digital(&[false]), &mut outputs);
    assert_eq!(outputs, vec![Signal::Digital(true)]);
    gate.evaluate(&digital(&[true, false]), &mut outputs);
    assert_eq!(outputs, vec![Signal::Digital(true)]);
}

#[test]
fn or_gate_modes() {
    let mut or = OrGate::default();
    let mut outputs = vec![Signal::Undefined];
    or.evaluate(&digital(&[false, true]), &mut outputs);
    assert_eq!(outputs, vec![Signal::Digital(true)]);
    or.evaluate(&digital(&[false, false]), &mut outputs);
    assert_eq!(outputs, vec![Signal::Digital(false)]);

    let mut nor = OrGate { invert_output: true, is_adder: false };
    nor.evaluate(&digital(&[false, false]), &mut outputs);
    assert_eq!(outputs, vec![Signal::Digital(true)]);
    nor.evaluate(&digital(&[true, false]), &mut outputs);
    assert_eq!(outputs, vec![Signal::Digital(false)]);

    let mut adder = OrGate { invert_output: false, is_adder: true };
    let inputs = vec![bits(1.5), Signal::Digital(true), bits(0.25)];
    adder.evaluate(&inputs, &mut outputs);
    // OFF + 1.5 coerces to analog, then + 1 and + 0.25
    assert_eq!(outputs, vec![bits(2.75)]);
    let empty: Vec<Signal> = Vec::new();
    adder.evaluate(&empty, &mut outputs);
    assert_eq!(outputs, vec![Signal::Digital(false)]);
}

#[test]
fn battery_emits_constant() {
    let mut battery = Battery::new(bits(-3.0));
    let mut outputs = vec![Signal::Undefined, Signal::Digital(true)];
    battery.evaluate(&digital(&[true, false]), &mut outputs);
    assert_eq!(outputs, vec![bits(-3.0), bits(-3.0)]);
    let default_battery = Battery::default();
    assert_eq!(default_battery.signal, Signal::Digital(true));
}

#[test]
fn node_copies_inputs_in_order() {
    let mut node = LogicNode;
    let inputs = vec![bits(1.0), Signal::Digital(false), Signal::Undefined];
    let mut outputs = vec![Signal::Undefined, Signal::Undefined, Signal::Undefined];
    node.evaluate(&inputs, &mut outputs);
    assert_eq!(outputs, inputs);
}

#[test]
fn gate_kind_dispatches() {
    let mut kind = GateKind::And(AndGate);
    let mut outputs = vec![Signal::Undefined];
    kind.evaluate(&digital(&[true, true]), &mut outputs);
    assert_eq!(outputs, vec![Signal::Digital(true)]);
    let mut kind = GateKind::Battery(Battery::new(Signal::Digital(true)));
    kind.evaluate(&Vec::new(), &mut outputs);
    assert_eq!(outputs, vec![Signal::Digital(true)]);
}

#[test]
fn set_all_overwrites_every_slot() {
    let mut signals = vec![Signal::Undefined, bits(1.0), Signal::Digital(false)];
    signals.set_all(Signal::Digital(true));
    assert_eq!(
        signals,
        vec![Signal::Digital(true), Signal::Digital(true), Signal::Digital(true)]
    );
}
