//! The evaluation contract of gates and the built-in gate behaviours.
//!
//! A gate reads its input signals in port order and writes every output
//! slot in port order; the built-in behaviours are stateless, and their
//! exact output value is pinned down by spec functions over the input
//! sequence.
use vstd::prelude::*;
use crate::signal::{Signal, SignalExt, spec_add, spec_negate};

verus! {

/// All inputs count as on.
pub open spec fn all_truthy(inputs: Seq<Signal>) -> bool {
    forall|i: int| 0 <= i < inputs.len() ==> inputs[i].spec_truthy()
}

/// At least one input counts as on.
pub open spec fn any_truthy(inputs: Seq<Signal>) -> bool {
    exists|i: int| 0 <= i < inputs.len() && inputs[i].spec_truthy()
}

/// How many inputs count as on.
pub open spec fn count_truthy(inputs: Seq<Signal>) -> int
    decreases inputs.len(),
{
    if inputs.len() == 0 {
        0
    } else {
        count_truthy(inputs.drop_last()) + if inputs.last().spec_truthy() {
            1int
        } else {
            0int
        }
    }
}

/// The running sum of all inputs, starting from a digital zero and added
/// left to right with the signal algebra's `+`.
pub open spec fn fold_sum(inputs: Seq<Signal>) -> Signal
    decreases inputs.len(),
{
    if inputs.len() == 0 {
        Signal::Digital(false)
    } else {
        spec_add(fold_sum(inputs.drop_last()), inputs.last())
    }
}

fn all_truthy_exec(inputs: &Vec<Signal>) -> (r: bool)
    ensures
        r == all_truthy(inputs@),
{
    let mut i: usize = 0;
    while i < inputs.len()
        invariant
            0 <= i <= inputs@.len(),
            forall|k: int| 0 <= k < i ==> inputs@[k].spec_truthy(),
        decreases inputs@.len() - i,
    {
        if !inputs[i].is_truthy() {
            return false;
        }
        i = i + 1;
    }
    true
}

fn any_truthy_exec(inputs: &Vec<Signal>) -> (r: bool)
    ensures
        r == any_truthy(inputs@),
{
    let mut i: usize = 0;
    while i < inputs.len()
        invariant
            0 <= i <= inputs@.len(),
            forall|k: int| 0 <= k < i ==> !inputs@[k].spec_truthy(),
        decreases inputs@.len() - i,
    {
        if inputs[i].is_truthy() {
            return true;
        }
        i = i + 1;
    }
    false
}

fn count_truthy_exec(inputs: &Vec<Signal>) -> (r: usize)
    ensures
        r == count_truthy(inputs@),
{
    let mut i: usize = 0;
    let mut count: usize = 0;
    while i < inputs.len()
        invariant
            0 <= i <= inputs@.len(),
            count <= i,
            count == count_truthy(inputs@.take(i as int)),
        decreases inputs@.len() - i,
    {
        proof {
            assert(inputs@.take(i + 1).drop_last() =~= inputs@.take(i as int));
            assert(inputs@.take(i + 1).last() == inputs@[i as int]);
        }
        if inputs[i].is_truthy() {
            count = count + 1;
        }
        i = i + 1;
    }
    proof {
        assert(inputs@.take(inputs@.len() as int) =~= inputs@);
    }
    count
}

fn fold_sum_exec(inputs: &Vec<Signal>) -> (r: Signal)
    ensures
        r == fold_sum(inputs@),
{
    let mut i: usize = 0;
    let mut acc = Signal::Digital(false);
    while i < inputs.len()
        invariant
            0 <= i <= inputs@.len(),
            acc == fold_sum(inputs@.take(i as int)),
        decreases inputs@.len() - i,
    {
        proof {
            assert(inputs@.take(i + 1).drop_last() =~= inputs@.take(i as int));
            assert(inputs@.take(i + 1).last() == inputs@[i as int]);
        }
        acc = acc.add(inputs[i]);
        i = i + 1;
    }
    proof {
        assert(inputs@.take(inputs@.len() as int) =~= inputs@);
    }
    acc
}

/// The behaviour of a logic gate.
///
/// `evaluate` reads the inputs in port order and rewrites the outputs in
/// port order; its exact effect on state and outputs is given by the two
/// spec functions of the implementation.
pub trait LogicGate: Sized {
    /// A gate's state after one evaluation.
    spec fn spec_next(&self, inputs: Seq<Signal>, prev: Seq<Signal>) -> Self;

    /// The output signals one evaluation writes, given the inputs and the
    /// previous output signals.
    spec fn spec_out(&self, inputs: Seq<Signal>, prev: Seq<Signal>) -> Seq<Signal>;

    /// What a gate demands of its port counts; violating it is a
    /// topology-construction fault.
    spec fn eval_requires(&self, inputs: Seq<Signal>, prev: Seq<Signal>) -> bool;

    /// Evaluate the current state of inputs (in order), and update the
    /// outputs (in order).
    fn evaluate(&mut self, inputs: &Vec<Signal>, outputs: &mut Vec<Signal>)
        requires
            old(self).eval_requires(inputs@, old(outputs)@),
        ensures
            *final(self) == old(self).spec_next(inputs@, old(outputs)@),
            final(outputs)@ == old(self).spec_out(inputs@, old(outputs)@),
    ;
}

/// A [`Battery`] emits a constant signal.
#[derive(Clone, Copy, Debug, PartialEq, Eq, Structural)]
pub struct Battery {
    pub signal: Signal,
}

impl Battery {
    /// Create a new battery with `signal`.
    pub fn new(signal: Signal) -> (r: Battery)
        ensures
            r.signal == signal,
    {
        Battery { signal }
    }
}

impl Default for Battery {
    /// A battery emitting a digital one.
    fn default() -> (r: Self)
        ensures
            r.signal == Signal::Digital(true),
    {
        Battery { signal: Signal::Digital(true) }
    }
}

impl LogicGate for Battery {
    open spec fn spec_next(&self, inputs: Seq<Signal>, prev: Seq<Signal>) -> Self {
        *self
    }

    open spec fn spec_out(&self, inputs: Seq<Signal>, prev: Seq<Signal>) -> Seq<Signal> {
        Seq::new(prev.len(), |i: int| self.signal)
    }

    open spec fn eval_requires(&self, inputs: Seq<Signal>, prev: Seq<Signal>) -> bool {
        true
    }

    fn evaluate(&mut self, inputs: &Vec<Signal>, outputs: &mut Vec<Signal>) {
        let signal = self.signal;
        outputs.set_all(signal);
        proof {
            assert(final(outputs)@ =~= old(self).spec_out(inputs@, old(outputs)@));
        }
    }
}

/// An AND gate emits a signal if all inputs are true.
///
/// ```md
/// Truth table:
/// | A | B | Q |
/// |---|---|---|
/// | 0 | 0 | 0 |
/// | 0 | 1 | 0 |
/// | 1 | 0 | 0 |
/// | 1 | 1 | 1 |
/// ```
#[derive(Clone, Copy, Debug, PartialEq, Eq, Structural)]
pub struct AndGate;

impl LogicGate for AndGate {
    open spec fn spec_next(&self, inputs: Seq<Signal>, prev: Seq<Signal>) -> Self {
        *self
    }

    open spec fn spec_out(&self, inputs: Seq<Signal>, prev: Seq<Signal>) -> Seq<Signal> {
        Seq::new(prev.len(), |i: int| Signal::Digital(all_truthy(inputs)))
    }

    open spec fn eval_requires(&self, inputs: Seq<Signal>, prev: Seq<Signal>) -> bool {
        true
    }

    fn evaluate(&mut self, inputs: &Vec<Signal>, outputs: &mut Vec<Signal>) {
        let signal = Signal::Digital(all_truthy_exec(inputs));
        outputs.set_all(signal);
        proof {
            assert(final(outputs)@ =~= old(self).spec_out(inputs@, old(outputs)@));
        }
    }
}

/// A NOT gate emits a signal if all inputs are false.
///
/// ```md
/// Truth table:
/// | A | Q |
/// |---|---|
/// | 0 | 1 |
/// | 1 | 0 |
/// ```
#[derive(Clone, Copy, Debug, PartialEq, Eq, Structural)]
pub struct NotGate;

impl LogicGate for NotGate {
    open spec fn spec_next(&self, inputs: Seq<Signal>, prev: Seq<Signal>) -> Self {
        *self
    }

    open spec fn spec_out(&self, inputs: Seq<Signal>, prev: Seq<Signal>) -> Seq<Signal> {
        Seq::new(prev.len(), |i: int| Signal::Digital(!all_truthy(inputs)))
    }

    open spec fn eval_requires(&self, inputs: Seq<Signal>, prev: Seq<Signal>) -> bool {
        true
    }

    fn evaluate(&mut self, inputs: &Vec<Signal>, outputs: &mut Vec<Signal>) {
        let signal = Signal::Digital(!all_truthy_exec(inputs));
        outputs.set_all(signal);
        proof {
            assert(final(outputs)@ =~= old(self).spec_out(inputs@, old(outputs)@));
        }
    }
}

/// The value an OR gate emits: any-truthy, or the analog running sum in
/// adder mode, inverted for a NOR.
pub open spec fn or_value(gate: OrGate, inputs: Seq<Signal>) -> Signal {
    let base = if gate.is_adder {
        fold_sum(inputs)
    } else {
        Signal::Digital(any_truthy(inputs))
    };
    if gate.invert_output {
        spec_negate(base)
    } else {
        base
    }
}

/// An OR gate emits a signal if any input is true.
///
/// - If `invert_output` is true, this behaves as a NOR gate instead.
/// - If `is_adder` is true, this behaves as an analog adder.
///
/// ```md
/// Truth table:
/// | A | B | Q |
/// |---|---|---|
/// | 0 | 0 | 0 |
/// | 0 | 1 | 1 |
/// | 1 | 0 | 1 |
/// | 1 | 1 | 1 |
/// ```
#[derive(Clone, Copy, Debug, PartialEq, Eq, Structural)]
pub struct OrGate {
    /// If true, this behaves as a NOR gate instead of an OR gate.
    pub invert_output: bool,
    /// If true, this behaves as an analog adder, computing the sum
    /// of all inputs.
    pub is_adder: bool,
}

impl Default for OrGate {
    /// A plain OR gate.
    fn default() -> (r: Self)
        ensures
            r.invert_output == false,
            r.is_adder == false,
    {
        OrGate { invert_output: false, is_adder: false }
    }
}

impl LogicGate for OrGate {
    open spec fn spec_next(&self, inputs: Seq<Signal>, prev: Seq<Signal>) -> Self {
        *self
    }

    open spec fn spec_out(&self, inputs: Seq<Signal>, prev: Seq<Signal>) -> Seq<Signal> {
        Seq::new(prev.len(), |i: int| or_value(*self, inputs))
    }

    open spec fn eval_requires(&self, inputs: Seq<Signal>, prev: Seq<Signal>) -> bool {
        true
    }

    fn evaluate(&mut self, inputs: &Vec<Signal>, outputs: &mut Vec<Signal>) {
        let base = if self.is_adder {
            fold_sum_exec(inputs)
        } else {
            Signal::Digital(any_truthy_exec(inputs))
        };
        let signal = if self.invert_output {
            base.negate()
        } else {
            base
        };
        outputs.set_all(signal);
        proof {
            assert(final(outputs)@ =~= old(self).spec_out(inputs@, old(outputs)@));
        }
    }
}

/// The XOR gate emits a signal if the number of true inputs is odd.
///
/// ```md
/// Truth table:
/// | A | B | Q |
/// |---|---|---|
/// | 0 | 0 | 0 |
/// | 0 | 1 | 1 |
/// | 1 | 0 | 1 |
/// | 1 | 1 | 0 |
/// ```
#[derive(Clone, Copy, Debug, PartialEq, Eq, Structural)]
pub struct XorGate;

impl LogicGate for XorGate {
    open spec fn spec_next(&self, inputs: Seq<Signal>, prev: Seq<Signal>) -> Self {
        *self
    }

    open spec fn spec_out(&self, inputs: Seq<Signal>, prev: Seq<Signal>) -> Seq<Signal> {
        Seq::new(prev.len(), |i: int| Signal::Digital(count_truthy(inputs) % 2 == 1))
    }

    open spec fn eval_requires(&self, inputs: Seq<Signal>, prev: Seq<Signal>) -> bool {
        true
    }

    fn evaluate(&mut self, inputs: &Vec<Signal>, outputs: &mut Vec<Signal>) {
        let count = count_truthy_exec(inputs);
        let signal = Signal::Digital(count % 2 == 1);
        outputs.set_all(signal);
        proof {
            assert(final(outputs)@ =~= old(self).spec_out(inputs@, old(outputs)@));
        }
    }
}

/// A passthrough node: it copies each input signal to the output port of
/// the same position, and is used purely for wire routing. Its input
/// count must equal its output count; a mismatch is a fatal
/// topology-construction fault.
#[derive(Clone, Copy, Debug, PartialEq, Eq, Structural)]
pub struct LogicNode;

impl LogicGate for LogicNode {
    open spec fn spec_next(&self, inputs: Seq<Signal>, prev: Seq<Signal>) -> Self {
        *self
    }

    open spec fn spec_out(&self, inputs: Seq<Signal>, prev: Seq<Signal>) -> Seq<Signal> {
        inputs
    }

    open spec fn eval_requires(&self, inputs: Seq<Signal>, prev: Seq<Signal>) -> bool {
        inputs.len() == prev.len()
    }

    fn evaluate(&mut self, inputs: &Vec<Signal>, outputs: &mut Vec<Signal>) {
        let n = inputs.len();
        let mut i: usize = 0;
        while i < n
            invariant
                n == inputs@.len(),
                outputs@.len() == n,
                0 <= i <= n,
                forall|k: int| 0 <= k < i ==> outputs@[k] == inputs@[k],
            decreases n - i,
        {
            let s = inputs[i];
            outputs.set(i, s);
            i = i + 1;
        }
        proof {
            assert(final(outputs)@ =~= inputs@);
        }
    }
}

/// One of the built-in gate behaviours, as a closed variant for storage
/// in a circuit.
#[derive(Clone, Copy, Debug, PartialEq, Eq, Structural)]
pub enum GateKind {
    And(AndGate),
    Or(OrGate),
    Not(NotGate),
    Xor(XorGate),
    Battery(Battery),
    Node(LogicNode),
}

impl GateKind {
    /// The output signals one evaluation writes; dispatches to the
    /// variant's own contract.
    pub open spec fn spec_out(self, inputs: Seq<Signal>, prev: Seq<Signal>) -> Seq<Signal> {
        match self {
            GateKind::And(g) => g.spec_out(inputs, prev),
            GateKind::Or(g) => g.spec_out(inputs, prev),
            GateKind::Not(g) => g.spec_out(inputs, prev),
            GateKind::Xor(g) => g.spec_out(inputs, prev),
            GateKind::Battery(g) => g.spec_out(inputs, prev),
            GateKind::Node(g) => g.spec_out(inputs, prev),
        }
    }

    /// What the variant demands of its port counts.
    pub open spec fn eval_requires(self, inputs: Seq<Signal>, prev: Seq<Signal>) -> bool {
        match self {
            GateKind::And(g) => g.eval_requires(inputs, prev),
            GateKind::Or(g) => g.eval_requires(inputs, prev),
            GateKind::Not(g) => g.eval_requires(inputs, prev),
            GateKind::Xor(g) => g.eval_requires(inputs, prev),
            GateKind::Battery(g) => g.eval_requires(inputs, prev),
            GateKind::Node(g) => g.eval_requires(inputs, prev),
        }
    }

    /// Evaluate the behaviour on the gathered input and output signals.
    pub fn evaluate(&mut self, inputs: &Vec<Signal>, outputs: &mut Vec<Signal>)
        requires
            old(self).eval_requires(inputs@, old(outputs)@),
        ensures
            *final(self) == *old(self),
            final(outputs)@ == old(self).spec_out(inputs@, old(outputs)@),
    {
        match self {
            GateKind::And(g) => g.evaluate(inputs, outputs),
            GateKind::Or(g) => g.evaluate(inputs, outputs),
            GateKind::Not(g) => g.evaluate(inputs, outputs),
            GateKind::Xor(g) => g.evaluate(inputs, outputs),
            GateKind::Battery(g) => g.evaluate(inputs, outputs),
            GateKind::Node(g) => g.evaluate(inputs, outputs),
        }
    }
}

} // verus!
