//! The fixed-step tick scheduler: a wall-clock-driven accumulator and a
//! fixed logic step. Elapsed wall time gathers in an overstep counter;
//! every full timestep in it buys exactly one evaluation pass over the
//! compiled order.
//!
//! All times are nanosecond counts.
use vstd::prelude::*;
use crate::circuit::{Circuit, TickState, gather_signals, lemma_eval_requires_dom, tick_spec};
use crate::circuit::{GateNode, GateOutput, Wire};
use crate::graph::LogicGraph;

verus! {

/// The signal and counter state after `n` full evaluation passes.
pub open spec fn ticks_n(
    gates: Map<u64, GateNode>,
    outputs: Map<u64, GateOutput>,
    wires: Map<u64, Wire>,
    st: TickState,
    order: Seq<u64>,
    n: nat,
) -> TickState
    decreases n,
{
    if n == 0 {
        st
    } else {
        tick_spec(gates, outputs, wires, ticks_n(gates, outputs, wires, st, order, (n - 1) as nat), order)
    }
}

/// A fixed timestep clock for logic simulation: how much wall time one
/// logic step stands for, how much accumulated wall time has not been
/// spent yet, and how much logic time has passed.
pub struct LogicTime {
    timestep_ns: u64,
    overstep_ns: u64,
    elapsed_ns: u64,
    delta_ns: u64,
}

impl LogicTime {
    /// The clock is usable: a zero timestep would buy infinitely many
    /// steps from any overstep.
    pub open spec fn wf(self) -> bool {
        self.spec_timestep() > 0
    }

    /// The configured timestep.
    pub closed spec fn spec_timestep(self) -> u64 {
        self.timestep_ns
    }

    /// The accumulated, unspent wall time.
    pub closed spec fn spec_overstep(self) -> u64 {
        self.overstep_ns
    }

    /// The logic time that has passed.
    pub closed spec fn spec_elapsed(self) -> u64 {
        self.elapsed_ns
    }

    /// The advance of the most recent step.
    pub closed spec fn spec_delta(self) -> u64 {
        self.delta_ns
    }

    /// A fresh clock with the given timestep, in nanoseconds. A zero
    /// timestep is a configuration fault.
    pub fn new(timestep_ns: u64) -> (r: LogicTime)
        requires
            timestep_ns > 0,
        ensures
            r.spec_timestep() == timestep_ns,
            r.spec_overstep() == 0,
            r.spec_elapsed() == 0,
            r.spec_delta() == 0,
            r.wf(),
    {
        LogicTime { timestep_ns, overstep_ns: 0, elapsed_ns: 0, delta_ns: 0 }
    }

    /// The amount of wall time that must pass before the next logic
    /// step, in nanoseconds.
    pub fn timestep(&self) -> (r: u64)
        ensures
            r == self.spec_timestep(),
    {
        self.timestep_ns
    }

    /// Set the timestep. Takes effect on the next step, respecting what
    /// is currently in the overstep. A zero timestep is a configuration
    /// fault.
    pub fn set_timestep(&mut self, timestep_ns: u64)
        requires
            timestep_ns > 0,
        ensures
            final(self).spec_timestep() == timestep_ns,
            final(self).spec_overstep() == old(self).spec_overstep(),
            final(self).spec_elapsed() == old(self).spec_elapsed(),
            final(self).spec_delta() == old(self).spec_delta(),
            final(self).wf(),
    {
        self.timestep_ns = timestep_ns;
    }

    /// The accumulated wall time not yet spent on steps.
    pub fn overstep(&self) -> (r: u64)
        ensures
            r == self.spec_overstep(),
    {
        self.overstep_ns
    }

    /// The logic time that has passed, in nanoseconds.
    pub fn elapsed(&self) -> (r: u64)
        ensures
            r == self.spec_elapsed(),
    {
        self.elapsed_ns
    }

    /// The advance of the most recent step, in nanoseconds.
    pub fn delta(&self) -> (r: u64)
        ensures
            r == self.spec_delta(),
    {
        self.delta_ns
    }

    /// Discard a part of the overstep amount. If `discard` is higher
    /// than the overstep, the overstep becomes zero.
    pub fn discard_overstep(&mut self, discard: u64)
        ensures
            final(self).spec_overstep() == if discard > old(self).spec_overstep() {
                0u64
            } else {
                (old(self).spec_overstep() - discard) as u64
            },
            final(self).spec_timestep() == old(self).spec_timestep(),
            final(self).spec_elapsed() == old(self).spec_elapsed(),
            final(self).spec_delta() == old(self).spec_delta(),
    {
        if discard > self.overstep_ns {
            self.overstep_ns = 0;
        } else {
            self.overstep_ns = self.overstep_ns - discard;
        }
    }

    /// Accumulate elapsed wall time toward new steps. The totals must
    /// fit the counter.
    pub fn accumulate(&mut self, delta_ns: u64)
        requires
            old(self).spec_overstep() + delta_ns <= u64::MAX,
        ensures
            final(self).spec_overstep() == old(self).spec_overstep() + delta_ns,
            final(self).spec_timestep() == old(self).spec_timestep(),
            final(self).spec_elapsed() == old(self).spec_elapsed(),
            final(self).spec_delta() == old(self).spec_delta(),
    {
        self.overstep_ns = self.overstep_ns + delta_ns;
    }

    /// Spend one timestep of accumulated wall time, if a full one is
    /// there: the overstep shrinks by the timestep and the logic clock
    /// advances by it. Returns whether a step was spent.
    pub fn expend(&mut self) -> (r: bool)
        requires
            old(self).spec_elapsed() + old(self).spec_overstep() <= u64::MAX,
        ensures
            r == (old(self).spec_overstep() >= old(self).spec_timestep()),
            final(self).spec_timestep() == old(self).spec_timestep(),
            r ==> final(self).spec_overstep() == old(self).spec_overstep() - old(self).spec_timestep() && final(self).spec_elapsed() == old(self).spec_elapsed() + old(self).spec_timestep() && final(self).spec_delta() == old(self).spec_timestep(),
            !r ==> final(self).spec_overstep() == old(self).spec_overstep() && final(self).spec_elapsed() == old(self).spec_elapsed() && final(self).spec_delta() == old(self).spec_delta(),
    {
        if self.overstep_ns >= self.timestep_ns {
            self.overstep_ns = self.overstep_ns - self.timestep_ns;
            self.elapsed_ns = self.elapsed_ns + self.timestep_ns;
            self.delta_ns = self.timestep_ns;
            true
        } else {
            false
        }
    }

    /// One outer update of the scheduler: accumulate the elapsed wall
    /// time, then, while a full timestep of it remains, spend one and
    /// run exactly one evaluation pass over the compiled order. Returns
    /// how many passes ran.
    ///
    /// Every gate of the order must be registered in the circuit and
    /// satisfy its behaviour's port demands, and the time totals must
    /// fit the counters.
    pub fn advance(
        &mut self,
        circuit: &mut Circuit,
        graph: &LogicGraph,
        delta_ns: u64,
    ) -> (steps: u64)
        requires
            old(self).wf(),
            old(self).spec_overstep() + delta_ns <= u64::MAX,
            old(self).spec_elapsed() + old(self).spec_overstep() + delta_ns <= u64::MAX,
            old(circuit).wf(),
            forall|k: int|
                0 <= k < graph.order().len() ==> old(circuit).gates_v().contains_key(
                    #[trigger] graph.order()[k],
                ),
            forall|k: int|
                0 <= k < graph.order().len() ==> old(circuit).gates_v()[#[trigger] graph.order()[k]].kind.eval_requires(
                    gather_signals(
                        old(circuit).signals_v(),
                        old(circuit).gates_v()[graph.order()[k]].fans.inputs@,
                    ),
                    gather_signals(
                        old(circuit).signals_v(),
                        old(circuit).gates_v()[graph.order()[k]].fans.outputs@,
                    ),
                ),
        ensures
            old(self).spec_overstep() + delta_ns == steps * old(self).spec_timestep() + final(self).spec_overstep(),
            final(self).spec_overstep() < old(self).spec_timestep(),
            steps as int == (old(self).spec_overstep() + delta_ns) as int / old(self).spec_timestep() as int,
            final(self).spec_overstep() as int == (old(self).spec_overstep() + delta_ns) as int
                % old(self).spec_timestep() as int,
            final(self).spec_timestep() == old(self).spec_timestep(),
            final(self).spec_elapsed() == old(self).spec_elapsed() + steps * old(self).spec_timestep(),
            final(self).wf(),
            final(circuit).signals_v() == ticks_n(
                old(circuit).gates_v(),
                old(circuit).outputs_v(),
                old(circuit).wires_v(),
                old(circuit).tick_state(),
                graph.order(),
                steps as nat,
            ).signals,
            final(circuit).desync_v() == ticks_n(
                old(circuit).gates_v(),
                old(circuit).outputs_v(),
                old(circuit).wires_v(),
                old(circuit).tick_state(),
                graph.order(),
                steps as nat,
            ).desync,
            final(circuit).gates_v() == old(circuit).gates_v(),
            final(circuit).outputs_v() == old(circuit).outputs_v(),
            final(circuit).wires_v() == old(circuit).wires_v(),
            final(circuit).owner_v() == old(circuit).owner_v(),
            final(circuit).wf(),
    {
        self.accumulate(delta_ns);
        let ghost total = old(self).spec_overstep() + delta_ns;
        let ghost ts = old(self).spec_timestep();
        let mut steps: u64 = 0;
        while self.overstep_ns >= self.timestep_ns
            invariant
                self.wf(),
                ts == self.spec_timestep(),
                total == old(self).spec_overstep() + delta_ns,
                total <= u64::MAX,
                old(self).spec_elapsed() + total <= u64::MAX,
                total == steps * ts + self.spec_overstep(),
                self.spec_elapsed() == old(self).spec_elapsed() + steps * ts,
                circuit.wf(),
                circuit.gates_v() == old(circuit).gates_v(),
                circuit.outputs_v() == old(circuit).outputs_v(),
                circuit.wires_v() == old(circuit).wires_v(),
                circuit.owner_v() == old(circuit).owner_v(),
                circuit.signals_v().dom() == old(circuit).signals_v().dom(),
                circuit.signals_v() == ticks_n(
                    old(circuit).gates_v(),
                    old(circuit).outputs_v(),
                    old(circuit).wires_v(),
                    old(circuit).tick_state(),
                    graph.order(),
                    steps as nat,
                ).signals,
                circuit.desync_v() == ticks_n(
                    old(circuit).gates_v(),
                    old(circuit).outputs_v(),
                    old(circuit).wires_v(),
                    old(circuit).tick_state(),
                    graph.order(),
                    steps as nat,
                ).desync,
                forall|k: int|
                    0 <= k < graph.order().len() ==> old(circuit).gates_v().contains_key(
                        #[trigger] graph.order()[k],
                    ),
                forall|k: int|
                    0 <= k < graph.order().len() ==> old(circuit).gates_v()[#[trigger] graph.order()[k]].kind.eval_requires(
                        gather_signals(
                            old(circuit).signals_v(),
                            old(circuit).gates_v()[graph.order()[k]].fans.inputs@,
                        ),
                        gather_signals(
                            old(circuit).signals_v(),
                            old(circuit).gates_v()[graph.order()[k]].fans.outputs@,
                        ),
                    ),
            decreases self.spec_overstep(),
        {
            let stepped = self.expend();
            proof {
                assert forall|k: int|
                    0 <= k < graph.order().len() implies old(circuit).gates_v()[
                #[trigger] graph.order()[k]].kind.eval_requires(
                    gather_signals(
                        circuit.signals_v(),
                        old(circuit).gates_v()[graph.order()[k]].fans.inputs@,
                    ),
                    gather_signals(
                        circuit.signals_v(),
                        old(circuit).gates_v()[graph.order()[k]].fans.outputs@,
                    ),
                ) by {
                    lemma_eval_requires_dom(
                        old(circuit).gates_v()[graph.order()[k]].kind,
                        old(circuit).signals_v(),
                        circuit.signals_v(),
                        old(circuit).gates_v()[graph.order()[k]].fans.inputs@,
                        old(circuit).gates_v()[graph.order()[k]].fans.outputs@,
                    );
                }
            }
            circuit.step_logic(graph.sorted());
            proof {
                assert(ts >= 1);
                assert(steps <= steps * ts) by (nonlinear_arith)
                    requires ts >= 1 && steps >= 0;
                assert(steps * ts + ts <= total);
                assert((steps + 1) * ts == steps * ts + ts) by (nonlinear_arith);
            }
            steps = steps + 1;
        }
        proof {
            assert(self.spec_overstep() < ts);
            vstd::arithmetic::div_mod::lemma_fundamental_div_mod_converse(
                total as int,
                ts as int,
                steps as int,
                self.spec_overstep() as int,
            );
        }
        steps
    }
}

} // verus!
