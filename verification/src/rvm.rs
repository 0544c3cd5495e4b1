//! The machine context: a program, the machine state it runs on, and what
//! the machine has printed.

use vstd::prelude::*;
use crate::rvm_engine::{refused, set_slot, step_spec, StepOutcome};
use crate::rvm_isa::OP_END;
use crate::rvm_memory::{
    MachineState, RvmFault, RvmMem, RvmRegU, MIN_MEMORY_SIZE, MIN_STACK_SIZE, NUM_REGISTERS,
    REG_ENTRY, REG_STACK_BASE, REG_STACK_TOP,
};
use crate::rvm_prog::{ProgramView, RvmProg};
use crate::rvm_text::texts_view;

verus! {

/// The context as a mathematical value.
pub struct CtxView {
    pub prog: ProgramView,
    pub mem: MachineState,
    /// The numbers printed so far, oldest first.
    pub console: Seq<i32>,
    /// The malformed literals met while assembling, oldest first.
    pub rejected: Seq<Seq<char>>,
    /// The label that the last first pass found declared twice.
    pub duplicate_label: Option<Seq<char>>,
}

pub struct RvmCtx {
    pub prog: RvmProg,
    pub mem: RvmMem,
    /// The numbers printed so far, oldest first.
    pub console: Vec<i32>,
    /// The malformed literals met while assembling, oldest first.
    pub rejected: Vec<String>,
    /// The label that the last first pass found declared twice.
    pub duplicate_label: Option<String>,
}

/// The text of a name, where there is one.
pub open spec fn name_view(name: Option<String>) -> Option<Seq<char>> {
    match name {
        Some(text) => Some(text@),
        None => None,
    }
}

impl View for RvmCtx {
    type V = CtxView;

    open spec fn view(&self) -> CtxView {
        CtxView {
            prog: self.prog@,
            mem: self.mem@,
            console: self.console@,
            rejected: texts_view(self.rejected@),
            duplicate_label: name_view(self.duplicate_label),
        }
    }
}

/// How a run ended.
#[derive(Clone, Copy, Debug, PartialEq, Eq, Structural)]
pub enum RvmRun {
    /// The end of the program was reached.
    Halted,
    /// The step budget ran out before the instruction at `next`.
    OutOfFuel { next: i32 },
    /// The instruction at `at` was refused.
    Faulted { at: i32, fault: RvmFault },
}

/// The state of a machine when a run ends, with what it printed.
pub struct RunOutcome {
    pub state: MachineState,
    pub console: Seq<i32>,
    pub end: RvmRun,
}

/// Whether there is an instruction at `idx`: the index lies inside both
/// arrays.
pub open spec fn fetchable(prog: ProgramView, idx: i32) -> bool {
    0 <= idx < prog.instructions.len() && idx < prog.args.len()
}

/// Whether the program ends at `idx`.
pub open spec fn at_end(prog: ProgramView, idx: i32) -> bool {
    0 <= idx < prog.instructions.len() && prog.instructions[idx as int] == OP_END
}

/// One step of `prog` at `idx`.
pub open spec fn step_at(prog: ProgramView, m: MachineState, idx: i32) -> StepOutcome {
    if fetchable(prog, idx) {
        step_spec(prog.instructions[idx as int], prog.args[idx as int], idx, m)
    } else {
        refused(m, RvmFault::InstructionFault)
    }
}

/// The console after a step.
pub open spec fn console_after(console: Seq<i32>, out: StepOutcome) -> Seq<i32> {
    match out.printed {
        Some(v) => console.push(v),
        None => console,
    }
}

/// Running `prog` from `idx` for at most `fuel` steps: the run halts at the
/// end of the program, stops at the first refused step, and pauses when
/// the budget is used up.
pub open spec fn run_spec(
    prog: ProgramView,
    m: MachineState,
    console: Seq<i32>,
    idx: i32,
    fuel: nat,
) -> RunOutcome
    decreases fuel,
{
    if at_end(prog, idx) {
        RunOutcome { state: m, console, end: RvmRun::Halted }
    } else if fuel == 0 {
        RunOutcome { state: m, console, end: RvmRun::OutOfFuel { next: idx } }
    } else {
        let out = step_at(prog, m, idx);
        match out.next {
            Err(fault) => RunOutcome { state: m, console, end: RvmRun::Faulted { at: idx, fault } },
            Ok(next) => run_spec(
                prog,
                out.state,
                console_after(console, out),
                next,
                (fuel - 1) as nat,
            ),
        }
    }
}

/// A refused step leaves the state alone and prints nothing.
pub proof fn lemma_refused_step_changes_nothing(prog: ProgramView, m: MachineState, idx: i32)
    requires
        step_at(prog, m, idx).next is Err,
    ensures
        step_at(prog, m, idx).state == m,
        step_at(prog, m, idx).printed is None,
{
}

impl RvmCtx {
    /// The symbol tables of the program are well formed.
    pub open spec fn wf(&self) -> bool {
        self.prog.wf()
    }

    /// A context with an empty program and a fresh machine whose stack is
    /// set up.
    pub fn new() -> (ctx: Self)
        ensures
            ctx.wf(),
            ctx@.prog == RvmProg::new_view(),
            ctx@.mem == (MachineState {
                flags: 0,
                remainder: 0,
                memory: Seq::new(MIN_MEMORY_SIZE as nat, |i: int| 0u8),
                registers: Seq::new(NUM_REGISTERS as nat, |i: int| RvmRegU::I32(0)).update(
                    REG_STACK_BASE as int,
                    RvmRegU::I32ADDR(MIN_STACK_SIZE as i32),
                ).update(REG_STACK_TOP as int, RvmRegU::I32ADDR(MIN_STACK_SIZE as i32)),
            }),
            ctx@.console == Seq::<i32>::empty(),
            ctx@.rejected == Seq::<Seq<char>>::empty(),
            ctx@.duplicate_label is None,
            ctx.prog.labels.count() == 0,
            ctx.prog.defines.count() == 0,
    {
        let mut ctx = RvmCtx {
            prog: RvmProg::new(),
            mem: RvmMem::new(),
            console: Vec::new(),
            rejected: Vec::new(),
            duplicate_label: None,
        };
        ctx.mem.rvm_stack_create();
        assert(ctx@.rejected =~= Seq::<Seq<char>>::empty());
        ctx
    }

    /// Executes the instruction at `instr_idx` and returns the index of the
    /// instruction to execute next. What it prints goes to the console. A
    /// refused step changes nothing.
    pub fn rvm_step(&mut self, instr_idx: i32) -> (r: Result<i32, RvmFault>)
        ensures
            r == step_at(old(self)@.prog, old(self)@.mem, instr_idx).next,
            final(self)@ == (CtxView {
                mem: step_at(old(self)@.prog, old(self)@.mem, instr_idx).state,
                console: console_after(
                    old(self)@.console,
                    step_at(old(self)@.prog, old(self)@.mem, instr_idx),
                ),
                ..old(self)@
            }),
            final(self).prog == old(self).prog,
            final(self).rejected == old(self).rejected,
            final(self).duplicate_label == old(self).duplicate_label,
    {
        if instr_idx < 0 || instr_idx as usize >= self.prog.instructions.len()
            || instr_idx as usize >= self.prog.args.len() {
            return Err(RvmFault::InstructionFault);
        }
        let at = instr_idx as usize;
        let opcode = self.prog.instructions[at];
        assert(self.prog@.args[at as int] == self.prog.args@[at as int]@);
        let stepped = self.mem.rvm_execute(opcode, &self.prog.args[at], instr_idx);
        if let Some(val) = stepped.printed {
            self.console.push(val);
        }
        stepped.next
    }

    /// Runs the program from instruction `instr_idx` for at most `fuel`
    /// steps.
    pub fn rvm_vm_resume(&mut self, instr_idx: i32, fuel: u64) -> (r: RvmRun)
        ensures
            r == run_spec(
                old(self)@.prog,
                old(self)@.mem,
                old(self)@.console,
                instr_idx,
                fuel as nat,
            ).end,
            final(self)@ == (CtxView {
                mem: run_spec(
                    old(self)@.prog,
                    old(self)@.mem,
                    old(self)@.console,
                    instr_idx,
                    fuel as nat,
                ).state,
                console: run_spec(
                    old(self)@.prog,
                    old(self)@.mem,
                    old(self)@.console,
                    instr_idx,
                    fuel as nat,
                ).console,
                ..old(self)@
            }),
            final(self).prog == old(self).prog,
            final(self).rejected == old(self).rejected,
            final(self).duplicate_label == old(self).duplicate_label,
    {
        let mut idx = instr_idx;
        let mut left = fuel;
        let ghost goal = run_spec(
            old(self)@.prog,
            old(self)@.mem,
            old(self)@.console,
            instr_idx,
            fuel as nat,
        );
        loop
            invariant
                self.prog == old(self).prog,
                self.rejected == old(self).rejected,
                self.duplicate_label == old(self).duplicate_label,
                goal == run_spec(
                    old(self)@.prog,
                    old(self)@.mem,
                    old(self)@.console,
                    instr_idx,
                    fuel as nat,
                ),
                goal == run_spec(self@.prog, self@.mem, self@.console, idx, left as nat),
            decreases left,
        {
            if idx >= 0 && (idx as usize) < self.prog.instructions.len()
                && self.prog.instructions[idx as usize] == OP_END {
                return RvmRun::Halted;
            }
            if left == 0 {
                return RvmRun::OutOfFuel { next: idx };
            }
            match self.rvm_step(idx) {
                Err(fault) => {
                    return RvmRun::Faulted { at: idx, fault };
                },
                Ok(next) => {
                    idx = next;
                    left = left - 1;
                },
            }
        }
    }

    /// Runs the program from its entry point for at most `fuel` steps. The
    /// entry register first gets the entry point as a plain integer; a
    /// register file without that slot is a fault at the entry point.
    pub fn rvm_vm_run(&mut self, fuel: u64) -> (r: RvmRun)
        ensures
            old(self)@.mem.registers.len() <= REG_ENTRY ==> r == (RvmRun::Faulted {
                at: old(self)@.prog.start,
                fault: RvmFault::RegisterFault,
            }) && final(self)@ == old(self)@,
            old(self)@.mem.registers.len() > REG_ENTRY ==> r == run_spec(
                old(self)@.prog,
                entered(old(self)@),
                old(self)@.console,
                old(self)@.prog.start,
                fuel as nat,
            ).end && final(self)@ == (CtxView {
                mem: run_spec(
                    old(self)@.prog,
                    entered(old(self)@),
                    old(self)@.console,
                    old(self)@.prog.start,
                    fuel as nat,
                ).state,
                console: run_spec(
                    old(self)@.prog,
                    entered(old(self)@),
                    old(self)@.console,
                    old(self)@.prog.start,
                    fuel as nat,
                ).console,
                ..old(self)@
            }),
            final(self).prog == old(self).prog,
            final(self).rejected == old(self).rejected,
            final(self).duplicate_label == old(self).duplicate_label,
    {
        if self.mem.registers.len() <= REG_ENTRY {
            return RvmRun::Faulted { at: self.prog.start, fault: RvmFault::RegisterFault };
        }
        // Set the index for the instruction to be executed
        self.mem.registers.set(REG_ENTRY, RvmRegU::I32(self.prog.start));
        self.rvm_vm_resume(self.prog.start, fuel)
    }
}

/// The machine state at the start of a run: the entry register holds the
/// entry point.
pub open spec fn entered(ctx: CtxView) -> MachineState {
    set_slot(ctx.mem, REG_ENTRY as i32, RvmRegU::I32(ctx.prog.start))
}

} // verus!
